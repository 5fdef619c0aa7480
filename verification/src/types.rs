//! Core data model: registered hosts, their tags, and the store's error
//! taxonomy.

use vstd::prelude::*;

verus! {

/// One `key=value` label attached to a registered host.
pub struct TagEntry {
    pub key: String,
    pub value: String,
}

/// Mathematical image of a [`TagEntry`].
#[verifier::ext_equal]
pub struct SpecTag {
    pub key: Seq<char>,
    pub value: Seq<char>,
}

impl View for TagEntry {
    type V = SpecTag;

    open spec fn view(&self) -> SpecTag {
        SpecTag { key: self.key@, value: self.value@ }
    }
}

impl DeepView for TagEntry {
    type V = SpecTag;

    open spec fn deep_view(&self) -> SpecTag {
        self.view()
    }
}

impl TagEntry {
    /// A copy with the same contents, visible as such to the verifier.
    pub fn duplicate(&self) -> (r: TagEntry)
        ensures
            r@ == self@,
    {
        TagEntry { key: self.key.clone(), value: self.value.clone() }
    }
}

/// The label set of one host, in the order the client supplied it.
pub type Tag = Vec<TagEntry>;

/// A copy of a label set with the same contents.
pub fn dup_tags(tags: &Tag) -> (r: Tag)
    ensures
        r.deep_view() == tags.deep_view(),
{
    let mut out: Vec<TagEntry> = Vec::new();
    let mut i: usize = 0;
    while i < tags.len()
        invariant
            0 <= i <= tags@.len(),
            out@.len() == i,
            out.deep_view() =~= tags.deep_view().take(i as int),
        decreases tags@.len() - i,
    {
        let e = tags[i].duplicate();
        proof {
            assert(e@ == tags.deep_view()[i as int]);
        }
        let ghost pre = out.deep_view();
        let ghost prev = out@;
        out.push(e);
        proof {
            assert forall|j: int| 0 <= j < out.deep_view().len() implies out.deep_view()[j]
                == tags.deep_view().take(i + 1)[j] by {
                assert(out.deep_view()[j] == out@[j]@);
                if j < i {
                    assert(out@[j] == prev[j]);
                    assert(pre[j] == prev[j]@);
                } else {
                    assert(out@[j] == e);
                }
            }
            assert(out.deep_view() =~= tags.deep_view().take(i + 1));
        }
        i += 1;
    }
    proof {
        assert(tags.deep_view().take(tags@.len() as int) =~= tags.deep_view());
    }
    out
}

/// One registered service instance. Identity is the
/// `(service, ip_address, port)` triple; every other field is a mutable
/// attribute refreshed on re-registration.
pub struct Host {
    pub ip_address: String,
    pub port: u16,
    pub last_check_in: String,
    pub expire_time: u64,
    pub revision: String,
    pub service: String,
    pub tags: Tag,
}

/// Mathematical image of a [`Host`].
#[verifier::ext_equal]
pub struct SpecHost {
    pub ip_address: Seq<char>,
    pub port: u16,
    pub last_check_in: Seq<char>,
    pub expire_time: u64,
    pub revision: Seq<char>,
    pub service: Seq<char>,
    pub tags: Seq<SpecTag>,
}

impl View for Host {
    type V = SpecHost;

    open spec fn view(&self) -> SpecHost {
        SpecHost {
            ip_address: self.ip_address@,
            port: self.port,
            last_check_in: self.last_check_in@,
            expire_time: self.expire_time,
            revision: self.revision@,
            service: self.service@,
            tags: self.tags.deep_view(),
        }
    }
}

impl DeepView for Host {
    type V = SpecHost;

    open spec fn deep_view(&self) -> SpecHost {
        self.view()
    }
}

impl Host {
    /// A copy with the same contents, visible as such to the verifier.
    pub fn duplicate(&self) -> (r: Host)
        ensures
            r@ == self@,
    {
        Host {
            ip_address: self.ip_address.clone(),
            port: self.port,
            last_check_in: self.last_check_in.clone(),
            expire_time: self.expire_time,
            revision: self.revision.clone(),
            service: self.service.clone(),
            tags: dup_tags(&self.tags),
        }
    }
}

/// Why a store operation failed. `Backend` stands for a fault of the
/// backing medium; `TimeSource` says the current wall-clock time could
/// not be obtained, so an expiry deadline could not be computed.
#[derive(Debug)]
pub enum StoreError {
    Backend { reason: String },
    TimeSource { reason: String },
}

impl StoreError {
    /// The human-readable reason carried by either variant.
    pub open spec fn spec_reason(&self) -> Seq<char> {
        match self {
            StoreError::Backend { reason } => reason@,
            StoreError::TimeSource { reason } => reason@,
        }
    }

    /// Hands out the reason for wire responses.
    pub fn describe(&self) -> (r: String)
        ensures
            r@ == self.spec_reason(),
    {
        match self {
            StoreError::Backend { reason } => reason.clone(),
            StoreError::TimeSource { reason } => reason.clone(),
        }
    }
}

} // verus!
