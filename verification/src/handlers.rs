//! The computational parts of the request handlers: building a host
//! record from a registration request, the v1 read model, and the
//! deletion decision.

use vstd::prelude::*;

use crate::clock::formatted_now;
use crate::store::Storage;
use crate::text::parse_u16;
use crate::text::u16_text_value;
use crate::types::Host;
use crate::types::StoreError;
use crate::types::Tag;

verus! {

/// What a registration request supplies for one host.
pub struct RegistrationParam {
    pub ip: String,
    pub port: u16,
    pub revision: String,
    pub tags: Tag,
}

/// The v1 read model for one service: its name, the environment label,
/// and its live hosts.
pub struct Registration {
    pub service: String,
    pub env: String,
    pub hosts: Vec<Host>,
}

/// Builds the v1 read model around a queried host list; the
/// environment label is fixed.
pub fn make_registration(service: &str, hosts: Vec<Host>) -> (r: Registration)
    ensures
        r.service@ == service@,
        r.env@ == "production"@,
        r.hosts == hosts,
{
    Registration { service: service.to_owned(), env: "production".to_owned(), hosts }
}

/// Builds the host record of one registration call: identity from the
/// service name and the supplied address, attributes from the request,
/// the check-in stamp from the wall clock. The expiry deadline is left
/// at zero here: the store stamps it on every upsert. Fails only when
/// the wall clock cannot be read.
pub fn convert_param_to_host(name: &str, p: RegistrationParam) -> (r: Result<Host, StoreError>)
    ensures
        r matches Ok(h) ==> h@.service == name@ && h@.ip_address == p.ip@ && h@.port == p.port
            && h@.revision == p.revision@ && h@.tags == p.tags.deep_view() && h@.expire_time == 0,
        r matches Err(e) ==> e is TimeSource,
{
    let last_check_in = match formatted_now() {
        Ok(v) => v,
        Err(e) => {
            return Err(e);
        },
    };
    Ok(
        Host {
            ip_address: p.ip,
            port: p.port,
            last_check_in,
            expire_time: 0,
            revision: p.revision,
            service: name.to_owned(),
            tags: p.tags,
        },
    )
}

/// Handles one registration: builds the record and upserts it under
/// the service name. The result is the store's own answer to storing a
/// host that carries exactly the request's address, port, revision and
/// tags under the service name — unless the wall clock failed first,
/// in which case the store is never reached and the error names the
/// time source.
pub fn register_host<S: Storage>(s: &S, name: &str, p: RegistrationParam) -> (r: Result<
    (),
    StoreError,
>)
    requires
        s.wf(),
    ensures
        (exists|h: Host|
            #[trigger] call_ensures(<S as Storage>::store_item, (s, name, h), r) && h@.service
                == name@ && h@.ip_address == p.ip@ && h@.port == p.port && h@.revision
                == p.revision@ && h@.tags == p.tags.deep_view()) || (r matches Err(e) && e
            is TimeSource),
{
    let host = match convert_param_to_host(name, p) {
        Ok(h) => h,
        Err(e) => {
            return Err(e);
        },
    };
    let ghost hv = host;
    let r = s.store_item(name, host);
    proof {
        assert(call_ensures(<S as Storage>::store_item, (s, name, hv), r));
    }
    r
}

/// Handles one v1 read: the live hosts of the service, wrapped in the
/// read model. The host list is exactly what the store's own query for
/// the service answered, and every host in it belongs to the service;
/// a failure is the query's own error.
pub fn registration_for<S: Storage>(s: &S, name: &str) -> (r: Result<Registration, StoreError>)
    requires
        s.wf(),
    ensures
        r matches Ok(reg) ==> reg.service@ == name@ && reg.env@ == "production"@ && call_ensures(
            <S as Storage>::query_items,
            (s, name),
            Ok::<Vec<Host>, StoreError>(reg.hosts),
        ) && forall|i: int|
            0 <= i < reg.hosts@.len() ==> (#[trigger] reg.hosts@[i])@.service == name@,
        r matches Err(e) ==> call_ensures(
            <S as Storage>::query_items,
            (s, name),
            Err::<Vec<Host>, StoreError>(e),
        ),
{
    let q = s.query_items(name);
    let ghost qv = q;
    proof {
        assert(call_ensures(<S as Storage>::query_items, (s, name), qv));
    }
    match q {
        Ok(hosts) => Ok(make_registration(name, hosts)),
        Err(e) => Err(e),
    }
}

/// What a deletion request ends in.
pub enum DeleteOutcome {
    /// The record existed and was removed; here it is.
    Deleted(Host),
    /// The port text does not read as a port number.
    InvalidPort,
    /// No record carries that identity.
    NotFound,
    /// The store faulted.
    Fault(StoreError),
}

/// The store answer that a deletion outcome stands for: the removed
/// record, a miss, or the store's error. (`InvalidPort` stands for no
/// store answer; the store is never asked then.)
pub open spec fn outcome_as_store_answer(r: DeleteOutcome) -> Result<Option<Host>, StoreError> {
    match r {
        DeleteOutcome::Deleted(h) => Ok(Some(h)),
        DeleteOutcome::NotFound => Ok(None),
        DeleteOutcome::Fault(e) => Err(e),
        DeleteOutcome::InvalidPort => Ok(None),
    }
}

/// Handles one deletion: parses the port text, then removes the
/// identity from the store whatever its expiry state. The port text is
/// rejected exactly when it does not read as a port number; otherwise
/// the outcome mirrors the store's own answer to deleting that
/// identity — the removed record (which carries exactly the requested
/// identity), a miss, or the store's error, each passed on unchanged.
pub fn handle_delete<S: Storage>(s: &S, name: &str, ip: String, port_text: &str) -> (r:
    DeleteOutcome)
    requires
        s.wf(),
    ensures
        (r is InvalidPort) <==> u16_text_value(port_text@) is None,
        r matches DeleteOutcome::Deleted(h) ==> h@.service == name@ && h@.ip_address == ip@
            && u16_text_value(port_text@) == Some(h@.port as nat),
        !(r is InvalidPort) ==> exists|port: u16|
            u16_text_value(port_text@) == Some(port as nat) && #[trigger] call_ensures(
                <S as Storage>::delete_item,
                (s, name, ip, port),
                outcome_as_store_answer(r),
            ),
{
    let port = match parse_u16(port_text) {
        Some(v) => v,
        None => {
            return DeleteOutcome::InvalidPort;
        },
    };
    let ghost ipv = ip;
    let res = s.delete_item(name, ip, port);
    proof {
        assert(call_ensures(<S as Storage>::delete_item, (s, name, ipv, port), res));
    }
    match res {
        Ok(Some(h)) => DeleteOutcome::Deleted(h),
        Ok(None) => DeleteOutcome::NotFound,
        Err(e) => DeleteOutcome::Fault(e),
    }
}

} // verus!
