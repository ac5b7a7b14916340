//! The datum versions a session server last saw, so that it pushes only
//! what changed.
use vstd::prelude::*;
use crate::keyed::{kfind, kget, kinsert, kput, kunique, kviews, lemma_kpos, lemma_kput_kdel};
use crate::model::DatumVersion;

verus! {

/// After recording `version` for a data id, a remote version is stale for it
/// exactly when it is newer than `version`; other data ids keep their
/// cached versions.
pub proof fn lemma_recorded_version_not_stale(
    s: Seq<(Seq<char>, DatumVersion)>,
    id: Seq<char>,
    version: DatumVersion,
    remote: DatumVersion,
    other: Seq<char>,
)
    requires
        kunique(s),
    ensures
        kunique(kput(s, id, version)),
        kget(kput(s, id, version), id) == Some(version),
        (match kget(kput(s, id, version), id) {
            Some(c) => remote.value > c.value,
            None => true,
        }) == (remote.value > version.value),
        other != id ==> kget(kput(s, id, version), other) == kget(s, other),
{
    lemma_kput_kdel(s, id, version, other);
}

/// The last known version of each data id.
pub struct SessionCacheService {
    versions: Vec<(String, DatumVersion)>,
}

impl SessionCacheService {
    #[verifier::type_invariant]
    spec fn one_version_per_id(self) -> bool {
        kunique(kviews(self.versions@))
    }

    /// The versions held, in the order their data ids were first seen.
    pub closed spec fn versions(&self) -> Seq<(Seq<char>, DatumVersion)> {
        kviews(self.versions@)
    }

    /// A cache without versions.
    pub fn new() -> (c: SessionCacheService)
        ensures
            c.versions().len() == 0,
    {
        let c = SessionCacheService { versions: Vec::new() };
        assert(c.versions() =~= Seq::<(Seq<char>, DatumVersion)>::empty());
        c
    }

    /// The cached version of `data_info_id`.
    pub fn get_version(&self, data_info_id: &str) -> (r: Option<DatumVersion>)
        ensures
            r == kget(self.versions(), data_info_id@),
    {
        proof {
            use_type_invariant(self);
            lemma_kpos(self.versions(), data_info_id@);
        }
        match kfind(&self.versions, data_info_id) {
            Some(i) => Some(self.versions[i].1),
            None => None,
        }
    }

    /// Records `version` as the version of `data_info_id`.
    pub fn update_version(&mut self, data_info_id: &str, version: DatumVersion)
        ensures
            final(self).versions() == kput(old(self).versions(), data_info_id@, version),
    {
        proof {
            use_type_invariant(&*self);
        }
        let mut v: Vec<(String, DatumVersion)> = Vec::new();
        std::mem::swap(&mut v, &mut self.versions);
        kinsert(&mut v, data_info_id.to_string(), version);
        self.versions = v;
    }

    /// Whether `remote_version` is newer than the cached version of
    /// `data_info_id`, or nothing is cached for it.
    pub fn is_stale(&self, data_info_id: &str, remote_version: &DatumVersion) -> (r: bool)
        ensures
            r == match kget(self.versions(), data_info_id@) {
                Some(c) => remote_version.value > c.value,
                None => true,
            },
    {
        match self.get_version(data_info_id) {
            Some(c) => remote_version.value > c.value,
            None => true,
        }
    }
}

impl Default for SessionCacheService {
    fn default() -> (c: Self)
        ensures
            c.versions().len() == 0,
    {
        Self::new()
    }
}

} // verus!
