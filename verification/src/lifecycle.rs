//! The profile lifecycle manager: create, list, update and remove, as pure
//! state transitions over the store.  Interactive confirmation, directory
//! handling and integration teardown are performed by the caller; removal
//! returns the exact cascade of site records to tear down.

use vstd::prelude::*;
use crate::ids::{fresh_identifier, Identifier};
use crate::model::{Error, Profile, ProfileView, Site, SiteView, Store, StoreView};

verus! {

pub open spec fn unique_ids(s: Seq<Identifier>) -> bool {
    forall|i: int, j: int| 0 <= i < j < s.len() ==> s[i] != s[j]
}

pub open spec fn seq_has_site(sites: Seq<SiteView>, id: Identifier) -> bool {
    exists|i: int| 0 <= i < sites.len() && sites[i].id == id
}

/// The record keyed `id`; meaningful under `seq_has_site` (and unique when
/// the site ids are unique).
pub open spec fn seq_site_at(sites: Seq<SiteView>, id: Identifier) -> SiteView {
    sites[choose|i: int| 0 <= i < sites.len() && sites[i].id == id]
}

/// The site records torn down when a profile referencing `refs` is removed:
/// one record per reference present in `sites`, in reference order.
pub open spec fn spec_cascade(sites: Seq<SiteView>, refs: Seq<Identifier>) -> Seq<SiteView>
    decreases refs.len(),
{
    if refs.len() == 0 {
        Seq::empty()
    } else {
        spec_cascade(sites, refs.drop_last()) + (if seq_has_site(sites, refs.last()) {
            seq![seq_site_at(sites, refs.last())]
        } else {
            Seq::empty()
        })
    }
}

/// The site records that survive the removal: everything not referenced.
pub open spec fn spec_keep(sites: Seq<SiteView>, refs: Seq<Identifier>) -> Seq<SiteView>
    decreases sites.len(),
{
    if sites.len() == 0 {
        Seq::empty()
    } else {
        spec_keep(sites.drop_last(), refs) + (if refs.contains(sites.last().id) {
            Seq::empty()
        } else {
            seq![sites.last()]
        })
    }
}

/// Field-by-field optional overwrite: an absent input leaves the stored
/// value untouched, a present one replaces it; identity and site set are
/// never touched.
pub open spec fn spec_merge(
    p: ProfileView,
    name: Option<Seq<char>>,
    description: Option<Seq<char>>,
) -> ProfileView {
    ProfileView {
        id: p.id,
        name: if name is Some { name } else { p.name },
        description: if description is Some { description } else { p.description },
        sites: p.sites,
    }
}

/// Insertion keyed by the profile id: replaces the record under an existing
/// key, appends under a fresh one.
pub open spec fn spec_insert_profile(s: StoreView, p: ProfileView) -> StoreView {
    if s.has_profile(p.id) {
        StoreView { profiles: s.profiles.update(s.pidx_of(p.id), p), ..s }
    } else {
        StoreView { profiles: s.profiles.push(p), ..s }
    }
}

/// Insertion keyed by the site id: replaces the record under an existing
/// key, appends under a fresh one.
pub open spec fn spec_insert_site(s: StoreView, st: SiteView) -> StoreView {
    if s.has_site(st.id) {
        StoreView { sites: s.sites.update(s.sidx_of(st.id), st), ..s }
    } else {
        StoreView { sites: s.sites.push(st), ..s }
    }
}

/// Referential integrity: every site referenced by a profile has a record.
pub open spec fn spec_closed(s: StoreView) -> bool {
    forall|k: int, t: int|
        0 <= k < s.profiles.len() && 0 <= t < s.profiles[k].sites.len()
            ==> seq_has_site(s.sites, s.profiles[k].sites[t])
}

/// Every reference present in the site table is torn down exactly once: the
/// cascade lists one record per reference, under that reference's id, in
/// reference order.
pub proof fn lemma_cascade_complete(sites: Seq<SiteView>, refs: Seq<Identifier>)
    requires
        forall|i: int| 0 <= i < refs.len() ==> seq_has_site(sites, refs[i]),
    ensures
        spec_cascade(sites, refs).len() == refs.len(),
        forall|i: int| 0 <= i < refs.len() ==> spec_cascade(sites, refs)[i].id == refs[i],
    decreases refs.len(),
{
    if refs.len() > 0 {
        let dl = refs.drop_last();
        assert(forall|i: int| 0 <= i < dl.len() ==> dl[i] == refs[i]);
        lemma_cascade_complete(sites, dl);
        assert(seq_has_site(sites, refs.last()));
        let w = choose|i: int| 0 <= i < sites.len() && sites[i].id == refs.last();
        assert(seq_site_at(sites, refs.last()).id == refs.last());
        assert(forall|i: int| 0 <= i < refs.len() ==> spec_cascade(sites, refs)[i].id
            == refs[i]) by {
            assert(forall|i: int| 0 <= i < dl.len()
                ==> spec_cascade(sites, refs)[i] == spec_cascade(sites, dl)[i]);
        };
    }
}

/// What survives a removal: exactly the records whose id is not referenced,
/// and key uniqueness is preserved.
pub proof fn lemma_keep_props(sites: Seq<SiteView>, refs: Seq<Identifier>)
    ensures
        forall|x: SiteView| #[trigger] spec_keep(sites, refs).contains(x)
            ==> sites.contains(x) && !refs.contains(x.id),
        forall|x: SiteView| sites.contains(x) && !refs.contains(x.id)
            ==> spec_keep(sites, refs).contains(x),
        (forall|i: int, j: int| 0 <= i < j < sites.len() ==> sites[i].id != sites[j].id)
            ==> (forall|i: int, j: int|
                0 <= i < j < spec_keep(sites, refs).len()
                    ==> spec_keep(sites, refs)[i].id != spec_keep(sites, refs)[j].id),
    decreases sites.len(),
{
    if sites.len() > 0 {
        let dl = sites.drop_last();
        let last = sites.last();
        lemma_keep_props(dl, refs);
        let kdl = spec_keep(dl, refs);
        let k = spec_keep(sites, refs);
        assert(forall|x: SiteView| dl.contains(x) ==> sites.contains(x)) by {
            assert(forall|i: int| 0 <= i < dl.len() ==> dl[i] == sites[i]);
        };
        if refs.contains(last.id) {
            assert(k =~= kdl);
            assert(forall|x: SiteView| sites.contains(x) && !refs.contains(x.id)
                ==> dl.contains(x)) by {
                assert forall|x: SiteView|
                    sites.contains(x) && !refs.contains(x.id) implies dl.contains(x) by {
                    let i = choose|i: int| 0 <= i < sites.len() && sites[i] == x;
                    assert(i < dl.len() || x == last);
                    if i < dl.len() {
                        assert(dl[i] == x);
                    }
                };
            };
        } else {
            assert(k == kdl + seq![last]);
            assert(k.last() == last);
            assert(forall|i: int| 0 <= i < kdl.len() ==> k[i] == kdl[i]);
            assert(sites.contains(last)) by {
                assert(sites[sites.len() - 1] == last);
            };
            assert forall|x: SiteView| #[trigger] k.contains(x)
                implies sites.contains(x) && !refs.contains(x.id) by {
                let i = choose|i: int| 0 <= i < k.len() && k[i] == x;
                if i < kdl.len() {
                    assert(kdl.contains(x));
                } else {
                    assert(x == last);
                }
            };
            assert forall|x: SiteView| sites.contains(x) && !refs.contains(x.id)
                implies k.contains(x) by {
                let i = choose|i: int| 0 <= i < sites.len() && sites[i] == x;
                if i < dl.len() {
                    assert(dl[i] == x);
                    assert(dl.contains(x));
                    assert(kdl.contains(x));
                    let j = choose|j: int| 0 <= j < kdl.len() && kdl[j] == x;
                    assert(k[j] == x);
                } else {
                    assert(x == last);
                    assert(k[k.len() - 1] == x);
                }
            };
            if forall|i: int, j: int| 0 <= i < j < sites.len() ==> sites[i].id != sites[j].id {
                assert(forall|i: int, j: int| 0 <= i < j < dl.len() ==> dl[i].id != dl[j].id);
                assert forall|i: int, j: int| 0 <= i < j < k.len()
                    implies k[i].id != k[j].id by {
                    if j < kdl.len() {
                        assert(kdl[i].id != kdl[j].id);
                    } else {
                        assert(j == k.len() - 1);
                        assert(k[j] == last);
                        assert(kdl.contains(k[i]));
                        assert(dl.contains(k[i]));
                        let w = choose|w: int| 0 <= w < dl.len() && dl[w] == k[i];
                        assert(sites[w] == k[i]);
                        assert(sites[w].id != sites[sites.len() - 1].id);
                    }
                };
            }
        }
    }
}

/// An update that supplies only a name leaves the description and the site
/// set unchanged; an update that supplies nothing is the identity.
pub proof fn lemma_update_merge_law(p: ProfileView, name: Option<Seq<char>>)
    ensures
        spec_merge(p, name, None).id == p.id,
        spec_merge(p, name, None).description == p.description,
        spec_merge(p, name, None).sites == p.sites,
        spec_merge(p, None, None) == p,
{
    assert(spec_merge(p, None, None) =~= p);
}


/// The on-disk data directory of a profile: `<userdata>/profiles/<id>` with
/// the identifier in canonical form.
pub open spec fn spec_profile_dir(userdata: Seq<char>, id: Identifier) -> Seq<char> {
    userdata + seq!['/', 'p', 'r', 'o', 'f', 'i', 'l', 'e', 's', '/']
        + crate::ids::spec_encode_id(id.value)
}

/// The path of a profile's freeform data directory, the target of template
/// copies at creation and update time and of best-effort deletion at
/// removal time.
pub fn profile_data_dir(userdata: &String, id: Identifier) -> (r: String)
    ensures
        r@ == spec_profile_dir(userdata@, id),
{
    let mut out: Vec<char> = Vec::new();
    crate::text::append_string_chars(&mut out, userdata);
    let ghost mid = out@;
    out.push('/'); out.push('p'); out.push('r'); out.push('o'); out.push('f');
    out.push('i'); out.push('l'); out.push('e'); out.push('s'); out.push('/');
    assert(out@ =~= mid + seq!['/', 'p', 'r', 'o', 'f', 'i', 'l', 'e', 's', '/']);
    crate::ids::encode_id_into(&mut out, id);
    let r = crate::text::chars_to_string(&out);
    assert(r@ =~= spec_profile_dir(userdata@, id));
    r
}

fn contains_id(v: &Vec<Identifier>, id: Identifier) -> (r: bool)
    ensures
        r == v@.contains(id),
{
    let mut i: usize = 0;
    while i < v.len()
        invariant
            i <= v.len(),
            forall|j: int| 0 <= j < i ==> v@[j] != id,
        decreases v.len() - i,
    {
        if v[i].value == id.value {
            assert(v@[i as int] == id);
            return true;
        }
        i += 1;
    }
    false
}

fn copy_ids(v: &Vec<Identifier>) -> (r: Vec<Identifier>)
    ensures
        r@ == v@,
{
    let mut r: Vec<Identifier> = Vec::new();
    let mut i: usize = 0;
    while i < v.len()
        invariant
            i <= v.len(),
            r@ == v@.take(i as int),
        decreases v.len() - i,
    {
        r.push(v[i]);
        assert(r@ =~= v@.take(i + 1));
        i += 1;
    }
    assert(r@ =~= v@);
    r
}


/// One line of a profile listing: the display name of a site and the URL
/// shown for it (the manifest URL, unless the manifest is inlined as a data
/// URL, in which case the document URL is shown).
pub struct AppEntry {
    pub id: Identifier,
    pub name: String,
    pub url: String,
}

#[verifier::ext_equal]
pub ghost struct AppEntryView {
    pub id: Identifier,
    pub name: Seq<char>,
    pub url: Seq<char>,
}

impl View for AppEntry {
    type V = AppEntryView;

    open spec fn view(&self) -> AppEntryView {
        AppEntryView { id: self.id, name: self.name@, url: self.url@ }
    }
}

/// One profile of a listing, metadata placeholders substituted and every
/// site reference resolved.
pub struct ProfileEntry {
    pub id: Identifier,
    pub title: String,
    pub about: String,
    pub apps: Vec<AppEntry>,
}

#[verifier::ext_equal]
pub ghost struct ProfileEntryView {
    pub id: Identifier,
    pub title: Seq<char>,
    pub about: Seq<char>,
    pub apps: Seq<AppEntryView>,
}

impl View for ProfileEntry {
    type V = ProfileEntryView;

    open spec fn view(&self) -> ProfileEntryView {
        ProfileEntryView {
            id: self.id,
            title: self.title@,
            about: self.about@,
            apps: self.apps@.map_values(|a: AppEntry| a@),
        }
    }
}

/// Whether a URL is a data URL, that is, its scheme is `data`.
pub open spec fn spec_is_data_url(u: Seq<char>) -> bool {
    u.len() >= 5 && u.subrange(0, 5) == seq!['d', 'a', 't', 'a', ':']
}

/// The URL displayed for a site.
pub open spec fn spec_app_url(st: SiteView) -> Seq<char> {
    if spec_is_data_url(st.manifest_url) {
        st.document_url
    } else {
        st.manifest_url
    }
}

pub open spec fn spec_app(sites: Seq<SiteView>, id: Identifier) -> AppEntryView {
    AppEntryView {
        id,
        name: seq_site_at(sites, id).name,
        url: spec_app_url(seq_site_at(sites, id)),
    }
}

/// The displayed profile name; a placeholder marks a missing one.
pub open spec fn spec_title(name: Option<Seq<char>>) -> Seq<char> {
    match name {
        Some(n) => n,
        None => "* Unnamed *"@,
    }
}

/// The displayed profile description; a placeholder marks a missing one.
pub open spec fn spec_about(d: Option<Seq<char>>) -> Seq<char> {
    match d {
        Some(n) => n,
        None => "* Nothing *"@,
    }
}

pub open spec fn spec_entry(s: StoreView, p: ProfileView) -> ProfileEntryView {
    ProfileEntryView {
        id: p.id,
        title: spec_title(p.name),
        about: spec_about(p.description),
        apps: p.sites.map_values(|rid: Identifier| spec_app(s.sites, rid)),
    }
}

fn is_data_url(u: &String) -> (r: bool)
    ensures
        r == spec_is_data_url(u@),
{
    let n = u.as_str().unicode_len();
    if n < 5 {
        return false;
    }
    let r = u.as_str().get_char(0) == 'd' && u.as_str().get_char(1) == 'a'
        && u.as_str().get_char(2) == 't' && u.as_str().get_char(3) == 'a'
        && u.as_str().get_char(4) == ':';
    proof {
        if r {
            assert(u@.subrange(0, 5) =~= seq!['d', 'a', 't', 'a', ':']);
        } else {
            if u@.subrange(0, 5) == seq!['d', 'a', 't', 'a', ':'] {
                assert(u@[0] == 'd' && u@[1] == 'a' && u@[2] == 't' && u@[3] == 'a'
                    && u@[4] == ':') by {
                    assert(u@.subrange(0, 5)[0] == u@[0]);
                    assert(u@.subrange(0, 5)[1] == u@[1]);
                    assert(u@.subrange(0, 5)[2] == u@[2]);
                    assert(u@.subrange(0, 5)[3] == u@[3]);
                    assert(u@.subrange(0, 5)[4] == u@[4]);
                };
            }
        }
    }
    r
}

impl Store {

    /// Produces one entry per profile, in table order, with every referenced
    /// site resolved to its record.  A reference to a missing site is a
    /// data-integrity failure, never silently skipped.
    pub fn list(&self) -> (r: Result<Vec<ProfileEntry>, Error>)
        requires
            self@.wf(),
        ensures
            match r {
                Ok(entries) => spec_closed(self@) && entries@.map_values(|e: ProfileEntry| e@)
                    == self@.profiles.map_values(|p: ProfileView| spec_entry(self@, p)),
                Err(e) => !spec_closed(self@) && (match e {
                    Error::ReferentialIntegrity(j) => !seq_has_site(self@.sites, j)
                        && exists|k: int, t: int|
                            0 <= k < self@.profiles.len()
                                && 0 <= t < self@.profiles[k].sites.len()
                                && self@.profiles[k].sites[t] == j,
                    _ => false,
                }),
            },
    {
        let ghost s0 = self@;
        let mut entries: Vec<ProfileEntry> = Vec::new();
        let mut k: usize = 0;
        while k < self.profiles.len()
            invariant
                k <= self.profiles.len(),
                self@ == s0,
                s0.wf(),
                entries@.map_values(|e: ProfileEntry| e@) == s0.profiles.take(k as int)
                    .map_values(|p: ProfileView| spec_entry(s0, p)),
                forall|q: int, t: int|
                    0 <= q < k && 0 <= t < s0.profiles[q].sites.len()
                        ==> seq_has_site(s0.sites, s0.profiles[q].sites[t]),
            decreases self.profiles.len() - k,
        {
            let ghost pv = s0.profiles[k as int];
            let mut apps: Vec<AppEntry> = Vec::new();
            let mut t: usize = 0;
            while t < self.profiles[k].sites.len()
                invariant
                    k < self.profiles.len(),
                    t <= pv.sites.len(),
                    self@ == s0,
                    s0.wf(),
                    pv == s0.profiles[k as int],
                    apps@.map_values(|a: AppEntry| a@) == pv.sites.take(t as int)
                        .map_values(|rid: Identifier| spec_app(s0.sites, rid)),
                    forall|u: int| 0 <= u < t ==> seq_has_site(s0.sites, pv.sites[u]),
                decreases pv.sites.len() - t,
            {
                let rid = self.profiles[k].sites[t];
                assert(rid == pv.sites[t as int]);
                match self.find_site(rid) {
                    None => {
                        assert(!seq_has_site(s0.sites, rid));
                        assert(!spec_closed(s0));
                        return Err(Error::ReferentialIntegrity(rid));
                    },
                    Some(si) => {
                        proof {
                            let c = choose|i: int|
                                0 <= i < s0.sites.len() && s0.sites[i].id == rid;
                            assert(0 <= c < s0.sites.len() && s0.sites[c].id == rid);
                            assert(c == si as int);
                            assert(seq_site_at(s0.sites, rid) == s0.sites[si as int]);
                        }
                        let st = &self.sites[si];
                        let url = if is_data_url(&st.manifest_url) {
                            st.document_url.clone()
                        } else {
                            st.manifest_url.clone()
                        };
                        let a = AppEntry { id: rid, name: st.name.clone(), url };
                        assert(a@ == spec_app(s0.sites, rid)) by {
                            assert(st@ == seq_site_at(s0.sites, rid));
                            assert(a@ =~= spec_app(s0.sites, rid));
                        };
                        let ghost apps0 = apps@;
                        apps.push(a);
                        proof {
                            let lhs = apps@.map_values(|a2: AppEntry| a2@);
                            let rhs = pv.sites.take(t + 1).map_values(
                                |rid2: Identifier| spec_app(s0.sites, rid2));
                            let plhs = apps0.map_values(|a2: AppEntry| a2@);
                            let prhs = pv.sites.take(t as int).map_values(
                                |rid2: Identifier| spec_app(s0.sites, rid2));
                            assert(plhs == prhs);
                            assert(plhs.len() == prhs.len());
                            assert(plhs.len() == apps0.len());
                            assert(prhs.len() == t);
                            assert(apps0.len() == t);
                            assert(lhs.len() == rhs.len());
                            assert forall|i: int| 0 <= i < lhs.len() implies lhs[i] == rhs[i] by {
                                assert(pv.sites.take(t + 1)[i] == pv.sites[i]);
                                assert(rhs[i] == spec_app(s0.sites, pv.sites[i]));
                                if i < t {
                                    assert(apps@[i] == apps0[i]);
                                    assert(lhs[i] == apps0[i]@);
                                    assert(plhs[i] == apps0[i]@);
                                    assert(prhs[i] == spec_app(s0.sites, pv.sites[i]));
                                } else {
                                    assert(apps@[i] == a);
                                    assert(lhs[i] == a@);
                                }
                            };
                            assert(lhs =~= rhs);
                        }
                    },
                }
                t += 1;
            }
            assert(pv.sites.take(pv.sites.len() as int) =~= pv.sites);
            let title = match &self.profiles[k].name {
                Some(s) => s.clone(),
                None => String::from_str("* Unnamed *"),
            };
            let about = match &self.profiles[k].description {
                Some(s) => s.clone(),
                None => String::from_str("* Nothing *"),
            };
            let e = ProfileEntry { id: self.profiles[k].id, title, about, apps };
            assert(e@ =~~= spec_entry(s0, pv));
            let ghost entries0 = entries@;
            entries.push(e);
            proof {
                let lhs = entries@.map_values(|e2: ProfileEntry| e2@);
                let rhs = s0.profiles.take(k + 1).map_values(|p: ProfileView| spec_entry(s0, p));
                let plhs = entries0.map_values(|e2: ProfileEntry| e2@);
                let prhs = s0.profiles.take(k as int).map_values(|p: ProfileView| spec_entry(s0, p));
                assert(plhs == prhs);
                assert(plhs.len() == prhs.len());
                assert(plhs.len() == entries0.len());
                assert(prhs.len() == k);
                assert(lhs.len() == rhs.len());
                assert forall|i: int| 0 <= i < lhs.len() implies lhs[i] == rhs[i] by {
                    assert(s0.profiles.take(k + 1)[i] == s0.profiles[i]);
                    assert(rhs[i] == spec_entry(s0, s0.profiles[i]));
                    if i < k {
                        assert(entries@[i] == entries0[i]);
                        assert(lhs[i] == entries0[i]@);
                        assert(plhs[i] == entries0[i]@);
                        assert(prhs[i] == spec_entry(s0, s0.profiles.take(k as int)[i]));
                        assert(s0.profiles.take(k as int)[i] == s0.profiles[i]);
                    } else {
                        assert(entries@[i] == e);
                        assert(lhs[i] == e@);
                        assert(s0.profiles[i] == pv);
                    }
                };
                assert(lhs =~= rhs);
            }
            k += 1;
        }
        assert(s0.profiles.take(s0.profiles.len() as int) =~= s0.profiles);
        Ok(entries)
    }

    /// Inserts a profile record under its id: replaces the record under an
    /// existing key, appends under a fresh one.
    pub fn insert_profile(&mut self, p: Profile)
        requires
            old(self)@.wf(),
            unique_ids(p@.sites),
        ensures
            final(self)@ == spec_insert_profile(old(self)@, p@),
            final(self)@.wf(),
            final(self)@.has_profile(p@.id),
    {
        let ghost pv = p@;
        let ghost s0 = self@;
        match self.find_profile(p.id) {
            Some(i) => {
                proof {
                    let c = s0.pidx_of(pv.id);
                    assert(0 <= c < s0.profiles.len() && s0.profiles[c].id == pv.id);
                    assert(c == i as int);
                }
                self.profiles.remove(i);
                self.profiles.insert(i, p);
                assert(self@.profiles =~= s0.profiles.update(i as int, pv));
                assert(self@ =~~= spec_insert_profile(s0, pv));
                assert(self@.profiles[i as int].id == pv.id);
            },
            None => {
                self.profiles.push(p);
                assert(self@.profiles =~= s0.profiles.push(pv));
                assert(self@ =~~= spec_insert_profile(s0, pv));
                assert(self@.profiles[s0.profiles.len() as int].id == pv.id);
            },
        }
    }

    /// Inserts a site record under its id: replaces the record under an
    /// existing key, appends under a fresh one.
    pub fn insert_site(&mut self, st: Site)
        requires
            old(self)@.wf(),
        ensures
            final(self)@ == spec_insert_site(old(self)@, st@),
            final(self)@.wf(),
            final(self)@.has_site(st@.id),
    {
        let ghost sv = st@;
        let ghost s0 = self@;
        match self.find_site(st.id) {
            Some(i) => {
                proof {
                    let c = s0.sidx_of(sv.id);
                    assert(0 <= c < s0.sites.len() && s0.sites[c].id == sv.id);
                    assert(c == i as int);
                }
                self.sites.remove(i);
                self.sites.insert(i, st);
                assert(self@.sites =~= s0.sites.update(i as int, sv));
                assert(self@ =~~= spec_insert_site(s0, sv));
                assert(self@.sites[i as int].id == sv.id);
            },
            None => {
                self.sites.push(st);
                assert(self@.sites =~= s0.sites.push(sv));
                assert(self@ =~~= spec_insert_site(s0, sv));
                assert(self@.sites[s0.sites.len() as int].id == sv.id);
            },
        }
    }

    /// Creates a profile: a fresh identifier, the given metadata and an
    /// empty site set, inserted into the store.  The caller persists the
    /// store and then decorates the profile directory from a template; a
    /// template failure must not roll the record back.
    pub fn create_profile(&mut self, name: Option<String>, description: Option<String>) -> (r:
        Identifier)
        requires
            old(self)@.wf(),
        ensures
            final(self)@ == spec_insert_profile(
                old(self)@,
                ProfileView {
                    id: r,
                    name: match name {
                        Some(s) => Some(s@),
                        None => None,
                    },
                    description: match description {
                        Some(s) => Some(s@),
                        None => None,
                    },
                    sites: Seq::empty(),
                },
            ),
            final(self)@.wf(),
            final(self)@.has_profile(r),
    {
        let id = fresh_identifier();
        let p = Profile::new(id, name, description);
        self.insert_profile(p);
        id
    }

    /// Updates the profile keyed `id` by optional merge: only the fields
    /// supplied are overwritten; supplying nothing is a successful no-op.
    /// Fails with `NotFound` when no profile has the key.
    pub fn update_profile(&mut self, id: Identifier, name: Option<String>, description: Option<
        String>) -> (r: Result<(), Error>)
        requires
            old(self)@.wf(),
        ensures
            final(self)@.wf(),
            match r {
                Ok(()) => old(self)@.has_profile(id) && final(self)@ == (StoreView {
                    profiles: old(self)@.profiles.update(
                        old(self)@.pidx_of(id),
                        spec_merge(
                            old(self)@.profiles[old(self)@.pidx_of(id)],
                            match name {
                                Some(s) => Some(s@),
                                None => None,
                            },
                            match description {
                                Some(s) => Some(s@),
                                None => None,
                            },
                        ),
                    ),
                    ..old(self)@
                }),
                Err(e) => e == Error::NotFound(id) && !old(self)@.has_profile(id)
                    && final(self)@ == old(self)@,
            },
    {
        let ghost s0 = self@;
        let pi = match self.find_profile(id) {
            Some(i) => i,
            None => {
                return Err(Error::NotFound(id));
            },
        };
        proof {
            let c = s0.pidx_of(id);
            assert(0 <= c < s0.profiles.len() && s0.profiles[c].id == id);
            assert(c == pi as int);
        }
        let mut p = self.profiles.remove(pi);
        let ghost pv = p@;
        if let Some(n) = name {
            p.name = Some(n);
        }
        if let Some(d) = description {
            p.description = Some(d);
        }
        self.profiles.insert(pi, p);
        assert(self@.profiles =~= s0.profiles.update(
            pi as int,
            spec_merge(
                pv,
                match name {
                    Some(s) => Some(s@),
                    None => None,
                },
                match description {
                    Some(s) => Some(s@),
                    None => None,
                },
            ),
        ));
        assert(self@ =~~= (StoreView {
            profiles: s0.profiles.update(
                s0.pidx_of(id),
                spec_merge(
                    s0.profiles[s0.pidx_of(id)],
                    match name {
                        Some(s) => Some(s@),
                        None => None,
                    },
                    match description {
                        Some(s) => Some(s@),
                        None => None,
                    },
                ),
            ),
            ..s0
        }));
        Ok(())
    }

    /// Removes the profile keyed `id`.
    ///
    /// Unless `confirmed`, the whole operation aborts with `UserAborted` and
    /// zero side effects.  On proceeding, every site the profile references
    /// is removed from the site table and returned, in reference order, for
    /// the caller to tear down exactly once each.  The nil profile's record
    /// is retained with a cleared site set; any other record is removed
    /// entirely.  Fails with `NotFound` when no profile has the key.
    pub fn remove_profile(&mut self, id: Identifier, confirmed: bool) -> (r: Result<Vec<Site>,
        Error>)
        requires
            old(self)@.wf(),
        ensures
            final(self)@.wf(),
            match r {
                Ok(cascade) => {
                    let s0 = old(self)@;
                    let pi = s0.pidx_of(id);
                    let refs = s0.profiles[pi].sites;
                    &&& s0.has_profile(id)
                    &&& confirmed
                    &&& cascade@.map_values(|st: Site| st@) == spec_cascade(s0.sites, refs)
                    &&& final(self)@.sites == spec_keep(s0.sites, refs)
                    &&& final(self)@.profiles == (if id.spec_is_nil() {
                        s0.profiles.update(
                            pi,
                            ProfileView { sites: Seq::empty(), ..s0.profiles[pi] },
                        )
                    } else {
                        s0.profiles.remove(pi)
                    })
                },
                Err(e) => {
                    &&& final(self)@ == old(self)@
                    &&& (e == Error::NotFound(id) && !old(self)@.has_profile(id)
                        || e == Error::UserAborted && old(self)@.has_profile(id) && !confirmed)
                },
            },
    {
        let ghost s0 = self@;
        let pi = match self.find_profile(id) {
            Some(i) => i,
            None => {
                return Err(Error::NotFound(id));
            },
        };
        if !confirmed {
            return Err(Error::UserAborted);
        }
        proof {
            let c = s0.pidx_of(id);
            assert(0 <= c < s0.profiles.len() && s0.profiles[c].id == id);
            assert(c == pi as int);
        }
        let refs = copy_ids(&self.profiles[pi].sites);
        let ghost refsv = s0.profiles[pi as int].sites;
        assert(refs@ == refsv);

        // first pass: collect the records to tear down, in reference order
        let mut cascade: Vec<Site> = Vec::new();
        let mut j: usize = 0;
        while j < refs.len()
            invariant
                j <= refs.len(),
                self@ == s0,
                s0.wf(),
                refs@ == refsv,
                pi < s0.profiles.len(),
                cascade@.map_values(|st: Site| st@) == spec_cascade(s0.sites, refsv.take(j as int)),
            decreases refs.len() - j,
        {
            let ghost pre = refsv.take(j as int);
            assert(refsv.take(j + 1).drop_last() =~= pre);
            assert(refsv.take(j + 1).last() == refsv[j as int]);
            match self.find_site(refs[j]) {
                Some(si) => {
                    proof {
                        let c = choose|i: int|
                            0 <= i < s0.sites.len() && s0.sites[i].id == refsv[j as int];
                        assert(0 <= c < s0.sites.len() && s0.sites[c].id == refsv[j as int]);
                        assert(c == si as int);
                        assert(seq_site_at(s0.sites, refsv[j as int]) == s0.sites[si as int]);
                    }
                    let st = self.sites[si].duplicate();
                    cascade.push(st);
                    assert(cascade@.map_values(|st: Site| st@) =~= spec_cascade(
                        s0.sites,
                        refsv.take(j + 1),
                    ));
                },
                None => {
                    assert(!seq_has_site(s0.sites, refsv[j as int]));
                    assert(cascade@.map_values(|st: Site| st@) =~= spec_cascade(
                        s0.sites,
                        refsv.take(j + 1),
                    ));
                },
            }
            j += 1;
        }
        assert(refsv.take(refsv.len() as int) =~= refsv);

        // second pass: rebuild the site table without the referenced records
        let mut kept: Vec<Site> = Vec::new();
        let mut k: usize = 0;
        while k < self.sites.len()
            invariant
                k <= self.sites.len(),
                self@ == s0,
                refs@ == refsv,
                kept@.map_values(|st: Site| st@) == spec_keep(s0.sites.take(k as int), refsv),
            decreases self.sites.len() - k,
        {
            let ghost pre = s0.sites.take(k as int);
            assert(s0.sites.take(k + 1).drop_last() =~= pre);
            assert(s0.sites.take(k + 1).last() == s0.sites[k as int]);
            if !contains_id(&refs, self.sites[k].id) {
                let st = self.sites[k].duplicate();
                kept.push(st);
            }
            assert(kept@.map_values(|st: Site| st@) =~= spec_keep(s0.sites.take(k + 1), refsv));
            k += 1;
        }
        assert(s0.sites.take(s0.sites.len() as int) =~= s0.sites);
        self.sites = kept;

        // the profile table: the nil record is cleared, any other removed
        if self.profiles[pi].id.is_nil() {
            assert(id.spec_is_nil());
            let mut p = self.profiles.remove(pi);
            p.sites = Vec::new();
            self.profiles.insert(pi, p);
            assert(p@.sites =~= Seq::<Identifier>::empty());
            assert(self@.profiles =~= s0.profiles.update(
                pi as int,
                ProfileView { sites: Seq::empty(), ..s0.profiles[pi as int] },
            ));
        } else {
            assert(!id.spec_is_nil());
            self.profiles.remove(pi);
            assert(self@.profiles =~= s0.profiles.remove(pi as int));
        }

        proof {
            lemma_keep_props(s0.sites, refsv);
            assert(self@.sites == spec_keep(s0.sites, refsv));
            assert forall|a: int, b: int| 0 <= a < b < self@.profiles.len()
                implies self@.profiles[a].id != self@.profiles[b].id by {
                if id.spec_is_nil() {
                } else {
                    assert(self@.profiles[a] == if a < pi as int {
                        s0.profiles[a]
                    } else {
                        s0.profiles[a + 1]
                    });
                    assert(self@.profiles[b] == if b < pi as int {
                        s0.profiles[b]
                    } else {
                        s0.profiles[b + 1]
                    });
                }
            };
            assert forall|q: int, a: int, b: int|
                0 <= q < self@.profiles.len() && 0 <= a < b < self@.profiles[q].sites.len()
                implies self@.profiles[q].sites[a] != self@.profiles[q].sites[b] by {
                if id.spec_is_nil() {
                    if q != pi as int {
                        assert(self@.profiles[q] == s0.profiles[q]);
                    }
                } else {
                    assert(self@.profiles[q] == if q < pi as int {
                        s0.profiles[q]
                    } else {
                        s0.profiles[q + 1]
                    });
                }
            };
        }
        Ok(cascade)
    }
}

} // verus!
