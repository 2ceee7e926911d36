//! The data model: sites, profiles, the store that persists them, and the
//! error taxonomy shared by the whole crate.

use vstd::prelude::*;
use crate::ids::Identifier;

verus! {

/// Every failure class the core can report.
#[derive(Clone, Copy, PartialEq, Eq, Structural, Debug)]
pub enum Error {
    /// A filesystem or network failure, reported by the unverified shell.
    Io,
    /// The state file exists but cannot be parsed.
    Corrupt,
    /// A referenced profile identifier has no record.
    NotFound(Identifier),
    /// A profile references a site absent from the site table.
    ReferentialIntegrity(Identifier),
    /// The interactive confirmation was declined; the operation is a no-op.
    UserAborted,
    /// Download or elevated execution of the installer did not succeed.
    InstallFailure,
    /// An attempt to run a tool that was never detected.
    NotInstalled,
    /// The architecture has no known installer artifact.
    UnsupportedPlatform,
}

/// One installed web application record.  Fields beyond the identifier, the
/// display name and the two URLs are owned by the installation workflow and
/// are opaque to this core.
pub struct Site {
    pub id: Identifier,
    pub name: String,
    pub manifest_url: String,
    pub document_url: String,
}

#[verifier::ext_equal]
pub ghost struct SiteView {
    pub id: Identifier,
    pub name: Seq<char>,
    pub manifest_url: Seq<char>,
    pub document_url: Seq<char>,
}

impl View for Site {
    type V = SiteView;

    open spec fn view(&self) -> SiteView {
        SiteView {
            id: self.id,
            name: self.name@,
            manifest_url: self.manifest_url@,
            document_url: self.document_url@,
        }
    }
}

impl Site {
    /// A field-for-field copy with the same view.
    pub fn duplicate(&self) -> (r: Site)
        ensures
            r@ == self@,
    {
        Site {
            id: self.id,
            name: self.name.clone(),
            manifest_url: self.manifest_url.clone(),
            document_url: self.document_url.clone(),
        }
    }
}

/// An isolated collection of installed sites plus metadata.  The profile
/// with the nil identifier is the permanent default and is never fully
/// deleted.
pub struct Profile {
    pub id: Identifier,
    pub name: Option<String>,
    pub description: Option<String>,
    pub sites: Vec<Identifier>,
}

#[verifier::ext_equal]
pub ghost struct ProfileView {
    pub id: Identifier,
    pub name: Option<Seq<char>>,
    pub description: Option<Seq<char>>,
    pub sites: Seq<Identifier>,
}

impl View for Profile {
    type V = ProfileView;

    open spec fn view(&self) -> ProfileView {
        ProfileView {
            id: self.id,
            name: match self.name {
                Some(s) => Some(s@),
                None => None,
            },
            description: match self.description {
                Some(s) => Some(s@),
                None => None,
            },
            sites: self.sites@,
        }
    }
}

impl Profile {
    /// A fresh profile under `id` with an empty site set.
    pub fn new(id: Identifier, name: Option<String>, description: Option<String>) -> (r: Profile)
        ensures
            r@ == (ProfileView {
                id,
                name: match name {
                    Some(s) => Some(s@),
                    None => None,
                },
                description: match description {
                    Some(s) => Some(s@),
                    None => None,
                },
                sites: Seq::<Identifier>::empty(),
            }),
    {
        let r = Profile { id, name, description, sites: Vec::new() };
        assert(r@.sites =~= Seq::<Identifier>::empty());
        r
    }

}

/// The whole unit of persistence: every profile and every site.  Both tables
/// are kept in insertion order; identifiers are the keys and must be unique.
pub struct Store {
    pub profiles: Vec<Profile>,
    pub sites: Vec<Site>,
}

#[verifier::ext_equal]
pub ghost struct StoreView {
    pub profiles: Seq<ProfileView>,
    pub sites: Seq<SiteView>,
}

impl View for Store {
    type V = StoreView;

    open spec fn view(&self) -> StoreView {
        StoreView {
            profiles: self.profiles@.map_values(|p: Profile| p@),
            sites: self.sites@.map_values(|s: Site| s@),
        }
    }
}

impl StoreView {
    /// Key uniqueness of both tables, and each profile's site list free of
    /// duplicates ("ordered set").
    pub open spec fn wf(self) -> bool {
        &&& (forall|i: int, j: int|
            0 <= i < j < self.profiles.len() ==> self.profiles[i].id != self.profiles[j].id)
        &&& (forall|i: int, j: int|
            0 <= i < j < self.sites.len() ==> self.sites[i].id != self.sites[j].id)
        &&& (forall|k: int, i: int, j: int|
            0 <= k < self.profiles.len() && 0 <= i < j < self.profiles[k].sites.len()
                ==> self.profiles[k].sites[i] != self.profiles[k].sites[j])
    }

    pub open spec fn has_profile(self, id: Identifier) -> bool {
        exists|i: int| 0 <= i < self.profiles.len() && self.profiles[i].id == id
    }

    /// The index of the profile keyed `id`; meaningful under `has_profile`
    /// (and unique under `wf`).
    pub open spec fn pidx_of(self, id: Identifier) -> int {
        choose|i: int| 0 <= i < self.profiles.len() && self.profiles[i].id == id
    }

    pub open spec fn has_site(self, id: Identifier) -> bool {
        exists|i: int| 0 <= i < self.sites.len() && self.sites[i].id == id
    }

    /// The index of the site keyed `id`; meaningful under `has_site` (and
    /// unique under `wf`).
    pub open spec fn sidx_of(self, id: Identifier) -> int {
        choose|i: int| 0 <= i < self.sites.len() && self.sites[i].id == id
    }

    /// The freshly initialized store: exactly the nil-identifier profile,
    /// no metadata, no sites.
    pub open spec fn initial() -> StoreView {
        StoreView {
            profiles: seq![
                ProfileView {
                    id: Identifier::spec_nil(),
                    name: None,
                    description: None,
                    sites: Seq::empty(),
                },
            ],
            sites: Seq::empty(),
        }
    }
}

impl Store {
    /// The store used when no state file exists yet: only the nil profile,
    /// with an empty site set.
    pub fn initial() -> (r: Store)
        ensures
            r@ == StoreView::initial(),
            r@.wf(),
    {
        let profiles = vec![
            Profile { id: Identifier::nil(), name: None, description: None, sites: Vec::new() },
        ];
        let r = Store { profiles, sites: Vec::new() };
        assert(r@.profiles.len() == 1);
        assert(r@.profiles[0].sites =~= Seq::<Identifier>::empty());
        assert(r@.profiles[0] =~= StoreView::initial().profiles[0]);
        assert(r@ =~~= StoreView::initial());
        r
    }

    /// The index of the profile keyed `id`, scanning from the front.
    pub fn find_profile(&self, id: Identifier) -> (r: Option<usize>)
        ensures
            match r {
                Some(i) => i < self@.profiles.len() && self@.profiles[i as int].id == id
                    && self@.has_profile(id),
                None => !self@.has_profile(id),
            },
    {
        let mut i: usize = 0;
        while i < self.profiles.len()
            invariant
                i <= self.profiles.len(),
                forall|j: int| 0 <= j < i ==> self@.profiles[j].id != id,
            decreases self.profiles.len() - i,
        {
            if self.profiles[i].id.value == id.value {
                assert(self@.profiles[i as int].id == id);
                return Some(i);
            }
            i += 1;
        }
        None
    }

    /// The index of the site keyed `id`, scanning from the front.
    pub fn find_site(&self, id: Identifier) -> (r: Option<usize>)
        ensures
            match r {
                Some(i) => i < self@.sites.len() && self@.sites[i as int].id == id
                    && self@.has_site(id),
                None => !self@.has_site(id),
            },
    {
        let mut i: usize = 0;
        while i < self.sites.len()
            invariant
                i <= self.sites.len(),
                forall|j: int| 0 <= j < i ==> self@.sites[j].id != id,
            decreases self.sites.len() - i,
        {
            if self.sites[i].id.value == id.value {
                assert(self@.sites[i as int].id == id);
                return Some(i);
            }
            i += 1;
        }
        None
    }

    /// Whether both key columns are free of duplicates and every profile's
    /// site list is a set.
    pub fn check_wf(&self) -> (r: bool)
        ensures
            r == self@.wf(),
    {
        let mut i: usize = 0;
        while i < self.profiles.len()
            invariant
                i <= self.profiles.len(),
                forall|a: int, b: int| 0 <= a < b < i ==> self@.profiles[a].id != self@.profiles[b].id,
                forall|k: int, a: int, b: int|
                    0 <= k < i && 0 <= a < b < self@.profiles[k].sites.len()
                        ==> self@.profiles[k].sites[a] != self@.profiles[k].sites[b],
            decreases self.profiles.len() - i,
        {
            let mut j: usize = 0;
            while j < i
                invariant
                    j <= i,
                    i < self.profiles.len(),
                    forall|b: int| 0 <= b < j ==> self@.profiles[b].id != self@.profiles[i as int].id,
                decreases i - j,
            {
                if self.profiles[j].id.value == self.profiles[i].id.value {
                    assert(self@.profiles[j as int].id == self@.profiles[i as int].id);
                    assert(self@.wf() ==> self@.profiles[j as int].id != self@.profiles[i as int].id);
                    return false;
                }
                j += 1;
            }
            let ghost sl = self@.profiles[i as int].sites;
            let mut a: usize = 0;
            while a < self.profiles[i].sites.len()
                invariant
                    i < self.profiles.len(),
                    sl == self@.profiles[i as int].sites,
                    a <= sl.len(),
                    forall|x: int, y: int| 0 <= x < y < a ==> sl[x] != sl[y],
                decreases sl.len() - a,
            {
                let mut b: usize = 0;
                while b < a
                    invariant
                        i < self.profiles.len(),
                        sl == self@.profiles[i as int].sites,
                        a < sl.len(),
                        b <= a,
                        forall|y: int| 0 <= y < b ==> sl[y] != sl[a as int],
                    decreases a - b,
                {
                    if self.profiles[i].sites[b].value == self.profiles[i].sites[a].value {
                        assert(sl[b as int] == sl[a as int]);
                        assert(self@.wf() ==> self@.profiles[i as int].sites[b as int]
                            != self@.profiles[i as int].sites[a as int]);
                        return false;
                    }
                    b += 1;
                }
                a += 1;
            }
            i += 1;
        }
        let mut i: usize = 0;
        while i < self.sites.len()
            invariant
                i <= self.sites.len(),
                forall|a: int, b: int| 0 <= a < b < i ==> self@.sites[a].id != self@.sites[b].id,
                self@.wf() == (forall|a: int, b: int|
                    0 <= a < b < self@.sites.len() ==> self@.sites[a].id != self@.sites[b].id),
            decreases self.sites.len() - i,
        {
            let mut j: usize = 0;
            while j < i
                invariant
                    j <= i,
                    i < self.sites.len(),
                    forall|b: int| 0 <= b < j ==> self@.sites[b].id != self@.sites[i as int].id,
                decreases i - j,
            {
                if self.sites[j].id.value == self.sites[i].id.value {
                    assert(self@.sites[j as int].id == self@.sites[i as int].id);
                    assert(self@.wf() ==> self@.sites[j as int].id != self@.sites[i as int].id);
                    return false;
                }
                j += 1;
            }
            i += 1;
        }
        true
    }
}

} // verus!
