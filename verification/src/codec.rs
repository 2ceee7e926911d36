//! The persistence codec: the store as a canonical JSON-shaped text.
//!
//! The document is `{"profiles":{<id>:<profile>,..},"sites":{<id>:<site>,..}}`
//! with identifiers in their canonical 26-character form as keys, profile
//! records `{"name":..,"description":..,"sites":[..]}` (absent metadata as
//! `null`) and site records `{"name":..,"manifest_url":..,"document_url":..}`.
//! The writer emits exactly this canonical form and the parser accepts
//! exactly it; anything else is `Corrupt`.  The round trip is proved: a
//! store written and parsed back is identical.

use vstd::prelude::*;
use crate::ids::{spec_decode_id, spec_encode_id, lemma_id_roundtrip, Identifier};
use crate::model::Error;
use crate::model::{Profile, ProfileView, Site, SiteView, Store, StoreView};

verus! {

// ---------------------------------------------------------------- literals

pub open spec fn key_store_open() -> Seq<char> {
    seq!['{', '"', 'p', 'r', 'o', 'f', 'i', 'l', 'e', 's', '"', ':']
}

pub open spec fn key_sites() -> Seq<char> {
    seq![',', '"', 's', 'i', 't', 'e', 's', '"', ':']
}

pub open spec fn key_name() -> Seq<char> {
    seq!['{', '"', 'n', 'a', 'm', 'e', '"', ':']
}

pub open spec fn key_description() -> Seq<char> {
    seq![',', '"', 'd', 'e', 's', 'c', 'r', 'i', 'p', 't', 'i', 'o', 'n', '"', ':']
}

pub open spec fn key_manifest() -> Seq<char> {
    seq![',', '"', 'm', 'a', 'n', 'i', 'f', 'e', 's', 't', '_', 'u', 'r', 'l', '"', ':']
}

pub open spec fn key_document() -> Seq<char> {
    seq![',', '"', 'd', 'o', 'c', 'u', 'm', 'e', 'n', 't', '_', 'u', 'r', 'l', '"', ':']
}

pub open spec fn lit_null() -> Seq<char> {
    seq!['n', 'u', 'l', 'l']
}

/// Whether `t` starts with `lit`.
pub open spec fn begins(t: Seq<char>, lit: Seq<char>) -> bool {
    t.len() >= lit.len() && t.subrange(0, lit.len() as int) == lit
}

proof fn lemma_begins_concat(lit: Seq<char>, rest: Seq<char>)
    ensures
        begins(lit + rest, lit),
        (lit + rest).skip(lit.len() as int) == rest,
{
    assert((lit + rest).subrange(0, lit.len() as int) =~= lit);
    assert((lit + rest).skip(lit.len() as int) =~= rest);
}

// ---------------------------------------------------------------- encoding

/// One character of a string value: quote and backslash are escaped, every
/// other character stands for itself.
pub open spec fn esc_char(c: char) -> Seq<char> {
    if c == '"' {
        seq!['\\', '"']
    } else if c == '\\' {
        seq!['\\', '\\']
    } else {
        seq![c]
    }
}

pub open spec fn spec_escape(s: Seq<char>) -> Seq<char>
    decreases s.len(),
{
    if s.len() == 0 {
        Seq::empty()
    } else {
        esc_char(s[0]) + spec_escape(s.skip(1))
    }
}

/// A quoted, escaped string value.
pub open spec fn spec_str(s: Seq<char>) -> Seq<char> {
    seq!['"'] + spec_escape(s) + seq!['"']
}

/// An optional string value: `null` when absent.
pub open spec fn spec_opt(v: Option<Seq<char>>) -> Seq<char> {
    match v {
        None => lit_null(),
        Some(s) => spec_str(s),
    }
}

/// A quoted identifier in canonical form.
pub open spec fn quoted_id(id: Identifier) -> Seq<char> {
    seq!['"'] + spec_encode_id(id.value) + seq!['"']
}

pub open spec fn spec_id_items(ids: Seq<Identifier>) -> Seq<char>
    decreases ids.len(),
{
    if ids.len() == 0 {
        Seq::empty()
    } else if ids.len() == 1 {
        quoted_id(ids[0])
    } else {
        quoted_id(ids[0]) + seq![','] + spec_id_items(ids.skip(1))
    }
}

pub open spec fn spec_id_arr(ids: Seq<Identifier>) -> Seq<char> {
    seq!['['] + spec_id_items(ids) + seq![']']
}

#[verifier::opaque]
pub open spec fn spec_enc_profile(p: ProfileView) -> Seq<char> {
    key_name() + spec_opt(p.name) + key_description() + spec_opt(p.description) + key_sites()
        + spec_id_arr(p.sites) + seq!['}']
}

#[verifier::opaque]
pub open spec fn spec_enc_site(st: SiteView) -> Seq<char> {
    key_name() + spec_str(st.name) + key_manifest() + spec_str(st.manifest_url) + key_document()
        + spec_str(st.document_url) + seq!['}']
}

pub open spec fn spec_pentry(p: ProfileView) -> Seq<char> {
    quoted_id(p.id) + seq![':'] + spec_enc_profile(p)
}

#[verifier::opaque]
pub open spec fn spec_pentries(ps: Seq<ProfileView>) -> Seq<char>
    decreases ps.len(),
{
    if ps.len() == 0 {
        Seq::empty()
    } else if ps.len() == 1 {
        spec_pentry(ps[0])
    } else {
        spec_pentry(ps[0]) + seq![','] + spec_pentries(ps.skip(1))
    }
}

pub open spec fn spec_sentry(st: SiteView) -> Seq<char> {
    quoted_id(st.id) + seq![':'] + spec_enc_site(st)
}

#[verifier::opaque]
pub open spec fn spec_sentries(ss: Seq<SiteView>) -> Seq<char>
    decreases ss.len(),
{
    if ss.len() == 0 {
        Seq::empty()
    } else if ss.len() == 1 {
        spec_sentry(ss[0])
    } else {
        spec_sentry(ss[0]) + seq![','] + spec_sentries(ss.skip(1))
    }
}

/// The whole document for a store.
pub open spec fn spec_enc_store(s: StoreView) -> Seq<char> {
    key_store_open() + seq!['{'] + spec_pentries(s.profiles) + seq!['}'] + key_sites()
        + seq!['{'] + spec_sentries(s.sites) + seq!['}'] + seq!['}']
}

// ---------------------------------------------------------------- parsing
//
// Each parser returns the parsed value and the number of characters it
// consumed, or `None` when the text is not canonical.

/// The body of a string value after the opening quote, up to and including
/// the closing quote.
pub open spec fn parse_strbody(t: Seq<char>) -> Option<(Seq<char>, int)>
    decreases t.len(),
{
    if t.len() == 0 {
        None
    } else if t[0] == '"' {
        Some((Seq::empty(), 1))
    } else if t[0] == '\\' {
        if t.len() >= 2 && (t[1] == '"' || t[1] == '\\') {
            match parse_strbody(t.skip(2)) {
                Some((s, n)) => Some((seq![t[1]] + s, n + 2)),
                None => None,
            }
        } else {
            None
        }
    } else {
        match parse_strbody(t.skip(1)) {
            Some((s, n)) => Some((seq![t[0]] + s, n + 1)),
            None => None,
        }
    }
}

pub open spec fn parse_str(t: Seq<char>) -> Option<(Seq<char>, int)> {
    if t.len() > 0 && t[0] == '"' {
        match parse_strbody(t.skip(1)) {
            Some((s, n)) => Some((s, n + 1)),
            None => None,
        }
    } else {
        None
    }
}

pub open spec fn parse_opt(t: Seq<char>) -> Option<(Option<Seq<char>>, int)> {
    if t.len() == 0 {
        None
    } else if t[0] == 'n' {
        if t.len() >= 4 && t[1] == 'u' && t[2] == 'l' && t[3] == 'l' {
            Some((None, 4))
        } else {
            None
        }
    } else {
        match parse_str(t) {
            Some((s, n)) => Some((Some(s), n)),
            None => None,
        }
    }
}

/// A quoted identifier: always 28 characters.
pub open spec fn parse_qid(t: Seq<char>) -> Option<Identifier> {
    if t.len() >= 28 && t[0] == '"' && t[27] == '"' {
        match spec_decode_id(t.subrange(1, 27)) {
            Some(v) => Some(Identifier { value: v }),
            None => None,
        }
    } else {
        None
    }
}

/// One or more quoted identifiers separated by commas, up to and including
/// the closing bracket.
pub open spec fn parse_id_items(t: Seq<char>) -> Option<(Seq<Identifier>, int)>
    decreases t.len(),
{
    match parse_qid(t) {
        None => None,
        Some(id) => if 28 < t.len() && t[28] == ',' {
            match parse_id_items(t.skip(29)) {
                Some((ids, m)) => Some((seq![id] + ids, 29 + m)),
                None => None,
            }
        } else if 28 < t.len() && t[28] == ']' {
            Some((seq![id], 29))
        } else {
            None
        },
    }
}

/// A bracketed identifier array, up to and including the closing bracket.
pub open spec fn parse_id_arr(t: Seq<char>) -> Option<(Seq<Identifier>, int)> {
    if t.len() >= 2 && t[0] == '[' {
        if t[1] == ']' {
            Some((Seq::<Identifier>::empty(), 2))
        } else {
            match parse_id_items(t.skip(1)) {
                Some((ids, m)) => Some((ids, 1 + m)),
                None => None,
            }
        }
    } else {
        None
    }
}

/// A profile record after its key: name, description and site references.
#[verifier::opaque]
pub open spec fn parse_profile(t: Seq<char>) -> Option<
    ((Option<Seq<char>>, Option<Seq<char>>, Seq<Identifier>), int),
> {
    if begins(t, key_name()) {
        match parse_opt(t.skip(8)) {
            None => None,
            Some((name, n1)) => {
                let t1 = t.skip(8 + n1);
                if 0 <= n1 && begins(t1, key_description()) {
                    match parse_opt(t1.skip(15)) {
                        None => None,
                        Some((desc, n2)) => {
                            let t2 = t1.skip(15 + n2);
                            if 0 <= n2 && begins(t2, key_sites()) {
                                match parse_id_arr(t2.skip(9)) {
                                    None => None,
                                    Some((ids, n3)) => {
                                        let t3 = t2.skip(9 + n3);
                                        if 0 <= n3 && t3.len() > 0 && t3[0] == '}' {
                                            Some((
                                                (name, desc, ids),
                                                8 + n1 + 15 + n2 + 9 + n3 + 1,
                                            ))
                                        } else {
                                            None
                                        }
                                    },
                                }
                            } else {
                                None
                            }
                        },
                    }
                } else {
                    None
                }
            },
        }
    } else {
        None
    }
}

/// A site record after its key: name and the two URLs.
#[verifier::opaque]
pub open spec fn parse_site(t: Seq<char>) -> Option<
    ((Seq<char>, Seq<char>, Seq<char>), int),
> {
    if begins(t, key_name()) {
        match parse_str(t.skip(8)) {
            None => None,
            Some((name, n1)) => {
                let t1 = t.skip(8 + n1);
                if 0 <= n1 && begins(t1, key_manifest()) {
                    match parse_str(t1.skip(16)) {
                        None => None,
                        Some((mu, n2)) => {
                            let t2 = t1.skip(16 + n2);
                            if 0 <= n2 && begins(t2, key_document()) {
                                match parse_str(t2.skip(16)) {
                                    None => None,
                                    Some((du, n3)) => {
                                        let t3 = t2.skip(16 + n3);
                                        if 0 <= n3 && t3.len() > 0 && t3[0] == '}' {
                                            Some((
                                                (name, mu, du),
                                                8 + n1 + 16 + n2 + 16 + n3 + 1,
                                            ))
                                        } else {
                                            None
                                        }
                                    },
                                }
                            } else {
                                None
                            }
                        },
                    }
                } else {
                    None
                }
            },
        }
    } else {
        None
    }
}

/// One or more profile entries separated by commas, up to and including the
/// closing brace of the profile table.
#[verifier::opaque]
pub open spec fn parse_pentries(t: Seq<char>) -> Option<(Seq<ProfileView>, int)>
    decreases t.len(),
{
    match parse_qid(t) {
        None => None,
        Some(id) => if 28 < t.len() && t[28] == ':' {
            match parse_profile(t.skip(29)) {
                None => None,
                Some((f, n)) => {
                    let p = ProfileView { id, name: f.0, description: f.1, sites: f.2 };
                    let k = 29 + n;
                    if 29 <= k && k < t.len() && t[k] == ',' {
                        match parse_pentries(t.skip(k + 1)) {
                            Some((ps, m)) => Some((seq![p] + ps, k + 1 + m)),
                            None => None,
                        }
                    } else if 29 <= k && k < t.len() && t[k] == '}' {
                        Some((seq![p], k + 1))
                    } else {
                        None
                    }
                },
            }
        } else {
            None
        },
    }
}

/// One or more site entries separated by commas, up to and including the
/// closing brace of the site table.
#[verifier::opaque]
pub open spec fn parse_sentries(t: Seq<char>) -> Option<(Seq<SiteView>, int)>
    decreases t.len(),
{
    match parse_qid(t) {
        None => None,
        Some(id) => if 28 < t.len() && t[28] == ':' {
            match parse_site(t.skip(29)) {
                None => None,
                Some((f, n)) => {
                    let st = SiteView { id, name: f.0, manifest_url: f.1, document_url: f.2 };
                    let k = 29 + n;
                    if 29 <= k && k < t.len() && t[k] == ',' {
                        match parse_sentries(t.skip(k + 1)) {
                            Some((ss, m)) => Some((seq![st] + ss, k + 1 + m)),
                            None => None,
                        }
                    } else if 29 <= k && k < t.len() && t[k] == '}' {
                        Some((seq![st], k + 1))
                    } else {
                        None
                    }
                },
            }
        } else {
            None
        },
    }
}

pub open spec fn parse_pobj(t: Seq<char>) -> Option<(Seq<ProfileView>, int)> {
    if t.len() >= 2 && t[0] == '{' {
        if t[1] == '}' {
            Some((Seq::<ProfileView>::empty(), 2))
        } else {
            match parse_pentries(t.skip(1)) {
                Some((ps, m)) => Some((ps, 1 + m)),
                None => None,
            }
        }
    } else {
        None
    }
}

pub open spec fn parse_sobj(t: Seq<char>) -> Option<(Seq<SiteView>, int)> {
    if t.len() >= 2 && t[0] == '{' {
        if t[1] == '}' {
            Some((Seq::<SiteView>::empty(), 2))
        } else {
            match parse_sentries(t.skip(1)) {
                Some((ss, m)) => Some((ss, 1 + m)),
                None => None,
            }
        }
    } else {
        None
    }
}

/// The whole document; the text must be consumed exactly.
pub open spec fn spec_parse_store(t: Seq<char>) -> Option<StoreView> {
    if begins(t, key_store_open()) {
        match parse_pobj(t.skip(12)) {
            None => None,
            Some((ps, n1)) => {
                let t1 = t.skip(12 + n1);
                if 0 <= n1 && begins(t1, key_sites()) {
                    match parse_sobj(t1.skip(9)) {
                        None => None,
                        Some((ss, n2)) => {
                            let t2 = t1.skip(9 + n2);
                            if 0 <= n2 && t2.len() == 1 && t2[0] == '}' {
                                Some(StoreView { profiles: ps, sites: ss })
                            } else {
                                None
                            }
                        },
                    }
                } else {
                    None
                }
            },
        }
    } else {
        None
    }
}


// ------------------------------------------------------------- round trip

proof fn lemma_escape_rt(s: Seq<char>, rest: Seq<char>)
    ensures
        parse_strbody(spec_escape(s) + seq!['"'] + rest) == Some((s, spec_escape(s).len() as int + 1)),
    decreases s.len(),
{
    let t = spec_escape(s) + seq!['"'] + rest;
    if s.len() == 0 {
        assert(spec_escape(s) =~= Seq::<char>::empty());
        assert(t =~= seq!['"'] + rest);
        assert(t[0] == '"');
        assert(s =~= Seq::<char>::empty());
    } else {
        let c = s[0];
        let e = esc_char(c);
        let tail = spec_escape(s.skip(1)) + seq!['"'] + rest;
        assert(spec_escape(s) == e + spec_escape(s.skip(1)));
        assert(t =~= e + tail);
        lemma_escape_rt(s.skip(1), rest);
        if c == '"' {
            assert(t[0] == '\\');
            assert(t[1] == '"');
            assert(t.skip(2) =~= tail);
            assert(seq![t[1]] + s.skip(1) =~= s);
        } else if c == '\\' {
            assert(t[0] == '\\');
            assert(t[1] == '\\');
            assert(t.skip(2) =~= tail);
            assert(seq![t[1]] + s.skip(1) =~= s);
        } else {
            assert(t[0] == c);
            assert(t.skip(1) =~= tail);
            assert(seq![t[0]] + s.skip(1) =~= s);
        }
    }
}

proof fn lemma_str_rt(s: Seq<char>, rest: Seq<char>)
    ensures
        parse_str(spec_str(s) + rest) == Some((s, spec_str(s).len() as int)),
        spec_str(s).len() == spec_escape(s).len() + 2,
{
    let t = spec_str(s) + rest;
    assert(t =~= seq!['"'] + (spec_escape(s) + seq!['"'] + rest));
    assert(t[0] == '"');
    assert(t.skip(1) =~= spec_escape(s) + seq!['"'] + rest);
    lemma_escape_rt(s, rest);
}

proof fn lemma_opt_rt(v: Option<Seq<char>>, rest: Seq<char>)
    ensures
        parse_opt(spec_opt(v) + rest) == Some((v, spec_opt(v).len() as int)),
{
    let t = spec_opt(v) + rest;
    match v {
        None => {
            assert(t =~= seq!['n', 'u', 'l', 'l'] + rest);
            assert(t[0] == 'n' && t[1] == 'u' && t[2] == 'l' && t[3] == 'l');
        },
        Some(s) => {
            assert(t =~= spec_str(s) + rest);
            assert(t[0] == '"');
            lemma_str_rt(s, rest);
        },
    }
}

proof fn lemma_qid_rt(id: Identifier, rest: Seq<char>)
    ensures
        parse_qid(quoted_id(id) + rest) == Some(id),
        quoted_id(id).len() == 28,
{
    lemma_id_roundtrip(id.value);
    let enc = spec_encode_id(id.value);
    let t = quoted_id(id) + rest;
    assert(t =~= seq!['"'] + enc + seq!['"'] + rest);
    assert(t[0] == '"');
    assert(t[27] == '"');
    assert(t.subrange(1, 27) =~= enc);
}

proof fn lemma_id_items_rt(ids: Seq<Identifier>, rest: Seq<char>)
    requires
        ids.len() >= 1,
    ensures
        parse_id_items(spec_id_items(ids) + seq![']'] + rest)
            == Some((ids, spec_id_items(ids).len() as int + 1)),
    decreases ids.len(),
{
    let t = spec_id_items(ids) + seq![']'] + rest;
    if ids.len() == 1 {
        assert(t =~= quoted_id(ids[0]) + (seq![']'] + rest));
        lemma_qid_rt(ids[0], seq![']'] + rest);
        assert(t[28] == ']');
        assert(seq![ids[0]] =~= ids);
    } else {
        let tail = spec_id_items(ids.skip(1)) + seq![']'] + rest;
        assert(spec_id_items(ids) == quoted_id(ids[0]) + seq![','] + spec_id_items(ids.skip(1)));
        assert(t =~= quoted_id(ids[0]) + (seq![','] + tail));
        lemma_qid_rt(ids[0], seq![','] + tail);
        assert(t[28] == ',');
        assert(t.skip(29) =~= tail);
        lemma_id_items_rt(ids.skip(1), rest);
        assert(seq![ids[0]] + ids.skip(1) =~= ids);
    }
}

proof fn lemma_id_arr_rt(ids: Seq<Identifier>, rest: Seq<char>)
    ensures
        parse_id_arr(spec_id_arr(ids) + rest) == Some((ids, spec_id_arr(ids).len() as int)),
{
    let t = spec_id_arr(ids) + rest;
    if ids.len() == 0 {
        assert(spec_id_items(ids) =~= Seq::<char>::empty());
        assert(t =~= seq!['[', ']'] + rest);
        assert(t[0] == '[' && t[1] == ']');
        assert(ids =~= Seq::<Identifier>::empty());
    } else {
        let tail = spec_id_items(ids) + seq![']'] + rest;
        assert(t =~= seq!['['] + tail);
        assert(t[0] == '[');
        lemma_qid_rt(ids[0], rest);
        if ids.len() == 1 {
            assert(spec_id_items(ids) == quoted_id(ids[0]));
        } else {
            assert(spec_id_items(ids) == quoted_id(ids[0]) + seq![','] + spec_id_items(
                ids.skip(1)));
        }
        assert(quoted_id(ids[0])[0] == '"');
        assert(spec_id_items(ids)[0] == '"');
        assert(t[1] == '"');
        assert(t.skip(1) =~= tail);
        lemma_id_items_rt(ids, rest);
    }
}

#[verifier::rlimit(100)]
proof fn lemma_profile_rt(p: ProfileView, rest: Seq<char>)
    ensures
        parse_profile(spec_enc_profile(p) + rest)
            == Some(((p.name, p.description, p.sites), spec_enc_profile(p).len() as int)),
{
    reveal(spec_enc_profile);
    reveal(parse_profile);
    let t = spec_enc_profile(p) + rest;
    let r1 = spec_opt(p.name) + (key_description() + (spec_opt(p.description) + (key_sites()
        + (spec_id_arr(p.sites) + (seq!['}'] + rest)))));
    assert(t =~= key_name() + r1);
    lemma_begins_concat(key_name(), r1);
    assert(t.skip(8) == r1);
    let r2 = key_description() + (spec_opt(p.description) + (key_sites() + (spec_id_arr(p.sites)
        + (seq!['}'] + rest))));
    lemma_opt_rt(p.name, r2);
    let n1 = spec_opt(p.name).len() as int;
    assert(parse_opt(t.skip(8)) == Some((p.name, n1)));
    let t1 = t.skip(8 + n1);
    assert(t1 =~= r2);
    let r3 = spec_opt(p.description) + (key_sites() + (spec_id_arr(p.sites) + (seq!['}'] + rest)));
    lemma_begins_concat(key_description(), r3);
    assert(t1.skip(15) == r3);
    let r4 = key_sites() + (spec_id_arr(p.sites) + (seq!['}'] + rest));
    lemma_opt_rt(p.description, r4);
    let n2 = spec_opt(p.description).len() as int;
    let t2 = t1.skip(15 + n2);
    assert(t2 =~= r4);
    let r5 = spec_id_arr(p.sites) + (seq!['}'] + rest);
    lemma_begins_concat(key_sites(), r5);
    assert(t2.skip(9) == r5);
    lemma_id_arr_rt(p.sites, seq!['}'] + rest);
    let n3 = spec_id_arr(p.sites).len() as int;
    let t3 = t2.skip(9 + n3);
    assert(t3 =~= seq!['}'] + rest);
    assert(t3[0] == '}');
    assert(spec_enc_profile(p).len() == 8 + n1 + 15 + n2 + 9 + n3 + 1);
}

#[verifier::rlimit(100)]
proof fn lemma_site_rt(st: SiteView, rest: Seq<char>)
    ensures
        parse_site(spec_enc_site(st) + rest)
            == Some(((st.name, st.manifest_url, st.document_url), spec_enc_site(st).len() as int)),
{
    reveal(spec_enc_site);
    reveal(parse_site);
    let t = spec_enc_site(st) + rest;
    let r1 = spec_str(st.name) + (key_manifest() + (spec_str(st.manifest_url) + (key_document()
        + (spec_str(st.document_url) + (seq!['}'] + rest)))));
    assert(t =~= key_name() + r1);
    lemma_begins_concat(key_name(), r1);
    assert(t.skip(8) == r1);
    let r2 = key_manifest() + (spec_str(st.manifest_url) + (key_document() + (spec_str(
        st.document_url) + (seq!['}'] + rest))));
    lemma_str_rt(st.name, r2);
    let n1 = spec_str(st.name).len() as int;
    let t1 = t.skip(8 + n1);
    assert(t1 =~= r2);
    let r3 = spec_str(st.manifest_url) + (key_document() + (spec_str(st.document_url) + (seq!['}']
        + rest)));
    lemma_begins_concat(key_manifest(), r3);
    assert(t1.skip(16) == r3);
    let r4 = key_document() + (spec_str(st.document_url) + (seq!['}'] + rest));
    lemma_str_rt(st.manifest_url, r4);
    let n2 = spec_str(st.manifest_url).len() as int;
    let t2 = t1.skip(16 + n2);
    assert(t2 =~= r4);
    let r5 = spec_str(st.document_url) + (seq!['}'] + rest);
    lemma_begins_concat(key_document(), r5);
    assert(t2.skip(16) == r5);
    lemma_str_rt(st.document_url, seq!['}'] + rest);
    let n3 = spec_str(st.document_url).len() as int;
    let t3 = t2.skip(16 + n3);
    assert(t3 =~= seq!['}'] + rest);
    assert(t3[0] == '}');
    assert(spec_enc_site(st).len() == 8 + n1 + 16 + n2 + 16 + n3 + 1);
}

#[verifier::rlimit(100)]
proof fn lemma_pentry_step(p: ProfileView, rest: Seq<char>)
    ensures
        spec_pentry(p).len() == 29 + spec_enc_profile(p).len(),
        parse_qid(spec_pentry(p) + rest) == Some(p.id),
        (spec_pentry(p) + rest)[28] == ':',
        parse_profile((spec_pentry(p) + rest).skip(29))
            == Some(((p.name, p.description, p.sites), spec_enc_profile(p).len() as int)),
        (spec_pentry(p) + rest).skip(29 + spec_enc_profile(p).len() as int) == rest,
{
    let t = spec_pentry(p) + rest;
    let r1 = seq![':'] + (spec_enc_profile(p) + rest);
    assert(t =~= quoted_id(p.id) + r1);
    lemma_qid_rt(p.id, r1);
    assert(t[28] == ':');
    assert(t.skip(29) =~= spec_enc_profile(p) + rest);
    lemma_profile_rt(p, rest);
    assert(t.skip(29 + spec_enc_profile(p).len() as int) =~= rest);
}

#[verifier::rlimit(100)]
proof fn lemma_sentry_step(st: SiteView, rest: Seq<char>)
    ensures
        spec_sentry(st).len() == 29 + spec_enc_site(st).len(),
        parse_qid(spec_sentry(st) + rest) == Some(st.id),
        (spec_sentry(st) + rest)[28] == ':',
        parse_site((spec_sentry(st) + rest).skip(29))
            == Some(((st.name, st.manifest_url, st.document_url), spec_enc_site(st).len() as int)),
        (spec_sentry(st) + rest).skip(29 + spec_enc_site(st).len() as int) == rest,
{
    let t = spec_sentry(st) + rest;
    let r1 = seq![':'] + (spec_enc_site(st) + rest);
    assert(t =~= quoted_id(st.id) + r1);
    lemma_qid_rt(st.id, r1);
    assert(t[28] == ':');
    assert(t.skip(29) =~= spec_enc_site(st) + rest);
    lemma_site_rt(st, rest);
    assert(t.skip(29 + spec_enc_site(st).len() as int) =~= rest);
}

#[verifier::rlimit(100)]
proof fn lemma_pentries_rt(ps: Seq<ProfileView>, rest: Seq<char>)
    requires
        ps.len() >= 1,
    ensures
        parse_pentries(spec_pentries(ps) + seq!['}'] + rest)
            == Some((ps, spec_pentries(ps).len() as int + 1)),
    decreases ps.len(),
{
    reveal(spec_pentries);
    reveal(parse_pentries);
    let t = spec_pentries(ps) + seq!['}'] + rest;
    let p0 = ps[0];
    let n = spec_enc_profile(p0).len() as int;
    let k = 29 + n;
    if ps.len() == 1 {
        assert(spec_pentries(ps) == spec_pentry(p0));
        let r = seq!['}'] + rest;
        assert(t =~= spec_pentry(p0) + r);
        lemma_pentry_step(p0, r);
        assert(t.skip(k) == r);
        assert(t[k] == t.skip(k)[0]);
        assert(t[k] == '}');
        let q = ProfileView { id: p0.id, name: p0.name, description: p0.description, sites: p0.sites };
        assert(q =~= p0);
        assert(seq![q] =~= ps);
    } else {
        let tail = spec_pentries(ps.skip(1)) + seq!['}'] + rest;
        assert(spec_pentries(ps) == spec_pentry(p0) + seq![','] + spec_pentries(ps.skip(1)));
        let r = seq![','] + tail;
        assert(t =~= spec_pentry(p0) + r);
        lemma_pentry_step(p0, r);
        assert(t.skip(k) == r);
        assert(t[k] == t.skip(k)[0]);
        assert(t[k] == ',');
        assert(t.skip(k + 1) =~= t.skip(k).skip(1));
        assert(t.skip(k).skip(1) =~= tail);
        lemma_pentries_rt(ps.skip(1), rest);
        let q = ProfileView { id: p0.id, name: p0.name, description: p0.description, sites: p0.sites };
        assert(q =~= p0);
        assert(seq![q] + ps.skip(1) =~= ps);
    }
}

#[verifier::rlimit(100)]
proof fn lemma_sentries_rt(ss: Seq<SiteView>, rest: Seq<char>)
    requires
        ss.len() >= 1,
    ensures
        parse_sentries(spec_sentries(ss) + seq!['}'] + rest)
            == Some((ss, spec_sentries(ss).len() as int + 1)),
    decreases ss.len(),
{
    reveal(spec_sentries);
    reveal(parse_sentries);
    let t = spec_sentries(ss) + seq!['}'] + rest;
    let s0 = ss[0];
    let n = spec_enc_site(s0).len() as int;
    let k = 29 + n;
    if ss.len() == 1 {
        assert(spec_sentries(ss) == spec_sentry(s0));
        let r = seq!['}'] + rest;
        assert(t =~= spec_sentry(s0) + r);
        lemma_sentry_step(s0, r);
        assert(t.skip(k) == r);
        assert(t[k] == t.skip(k)[0]);
        assert(t[k] == '}');
        let q = SiteView { id: s0.id, name: s0.name, manifest_url: s0.manifest_url, document_url: s0.document_url };
        assert(q =~= s0);
        assert(seq![q] =~= ss);
    } else {
        let tail = spec_sentries(ss.skip(1)) + seq!['}'] + rest;
        assert(spec_sentries(ss) == spec_sentry(s0) + seq![','] + spec_sentries(ss.skip(1)));
        let r = seq![','] + tail;
        assert(t =~= spec_sentry(s0) + r);
        lemma_sentry_step(s0, r);
        assert(t.skip(k) == r);
        assert(t[k] == t.skip(k)[0]);
        assert(t[k] == ',');
        assert(t.skip(k + 1) =~= t.skip(k).skip(1));
        assert(t.skip(k).skip(1) =~= tail);
        lemma_sentries_rt(ss.skip(1), rest);
        let q = SiteView { id: s0.id, name: s0.name, manifest_url: s0.manifest_url, document_url: s0.document_url };
        assert(q =~= s0);
        assert(seq![q] + ss.skip(1) =~= ss);
    }
}

proof fn lemma_pobj_rt(ps: Seq<ProfileView>, rest: Seq<char>)
    ensures
        parse_pobj(seq!['{'] + spec_pentries(ps) + seq!['}'] + rest)
            == Some((ps, spec_pentries(ps).len() as int + 2)),
{
    reveal(spec_pentries);
    let t = seq!['{'] + spec_pentries(ps) + seq!['}'] + rest;
    assert(t[0] == '{');
    if ps.len() == 0 {
        assert(spec_pentries(ps) =~= Seq::<char>::empty());
        assert(t =~= seq!['{', '}'] + rest);
        assert(t[1] == '}');
        assert(ps =~= Seq::<ProfileView>::empty());
    } else {
        let tail = spec_pentries(ps) + seq!['}'] + rest;
        assert(t =~= seq!['{'] + tail);
        if ps.len() == 1 {
            assert(spec_pentries(ps) == spec_pentry(ps[0]));
        } else {
            assert(spec_pentries(ps) == spec_pentry(ps[0]) + seq![','] + spec_pentries(
                ps.skip(1)));
        }
        assert(quoted_id(ps[0].id)[0] == '"');
        assert(spec_pentry(ps[0])[0] == '"');
        assert(spec_pentries(ps)[0] == '"');
        assert(t[1] == '"');
        assert(t.skip(1) =~= tail);
        lemma_pentries_rt(ps, rest);
    }
}

proof fn lemma_sobj_rt(ss: Seq<SiteView>, rest: Seq<char>)
    ensures
        parse_sobj(seq!['{'] + spec_sentries(ss) + seq!['}'] + rest)
            == Some((ss, spec_sentries(ss).len() as int + 2)),
{
    reveal(spec_sentries);
    let t = seq!['{'] + spec_sentries(ss) + seq!['}'] + rest;
    assert(t[0] == '{');
    if ss.len() == 0 {
        assert(spec_sentries(ss) =~= Seq::<char>::empty());
        assert(t =~= seq!['{', '}'] + rest);
        assert(t[1] == '}');
        assert(ss =~= Seq::<SiteView>::empty());
    } else {
        let tail = spec_sentries(ss) + seq!['}'] + rest;
        assert(t =~= seq!['{'] + tail);
        if ss.len() == 1 {
            assert(spec_sentries(ss) == spec_sentry(ss[0]));
        } else {
            assert(spec_sentries(ss) == spec_sentry(ss[0]) + seq![','] + spec_sentries(
                ss.skip(1)));
        }
        assert(quoted_id(ss[0].id)[0] == '"');
        assert(spec_sentry(ss[0])[0] == '"');
        assert(spec_sentries(ss)[0] == '"');
        assert(t[1] == '"');
        assert(t.skip(1) =~= tail);
        lemma_sentries_rt(ss, rest);
    }
}

/// Round trip: the document written for any store parses back to exactly
/// that store, profiles and sites alike, keys and field values included.
#[verifier::rlimit(100)]
pub proof fn lemma_store_roundtrip(s: StoreView)
    ensures
        spec_parse_store(spec_enc_store(s)) == Some(s),
{
    let t = spec_enc_store(s);
    let pobj = seq!['{'] + spec_pentries(s.profiles) + seq!['}'];
    let sobj = seq!['{'] + spec_sentries(s.sites) + seq!['}'];
    let r1 = pobj + (key_sites() + (sobj + seq!['}']));
    assert(t =~= key_store_open() + r1);
    lemma_begins_concat(key_store_open(), r1);
    assert(t.skip(12) == r1);
    let rest1 = key_sites() + (sobj + seq!['}']);
    assert(t.skip(12) =~= seq!['{'] + spec_pentries(s.profiles) + seq!['}'] + rest1);
    lemma_pobj_rt(s.profiles, rest1);
    let n1 = spec_pentries(s.profiles).len() as int + 2;
    assert(parse_pobj(t.skip(12)) == Some((s.profiles, n1)));
    let t1 = t.skip(12 + n1);
    assert(t1 =~= rest1);
    let rest2 = sobj + seq!['}'];
    lemma_begins_concat(key_sites(), rest2);
    assert(t1.skip(9) == rest2);
    assert(t1.skip(9) =~= seq!['{'] + spec_sentries(s.sites) + seq!['}'] + seq!['}']);
    lemma_sobj_rt(s.sites, seq!['}']);
    let n2 = spec_sentries(s.sites).len() as int + 2;
    assert(parse_sobj(t1.skip(9)) == Some((s.sites, n2)));
    let t2 = t1.skip(9 + n2);
    assert(t2 =~= seq!['}']);
    assert(t2.len() == 1 && t2[0] == '}');
    assert(StoreView { profiles: s.profiles, sites: s.sites } =~= s);
}



// ----------------------------------------------------------- exec encoding

fn push_key_name(out: &mut Vec<char>)
    ensures
        final(out)@ == old(out)@ + key_name(),
{
    out.push('{'); out.push('"'); out.push('n'); out.push('a'); out.push('m'); out.push('e');
    out.push('"'); out.push(':');
    assert(out@ =~= old(out)@ + key_name());
}

fn push_key_description(out: &mut Vec<char>)
    ensures
        final(out)@ == old(out)@ + key_description(),
{
    out.push(','); out.push('"'); out.push('d'); out.push('e'); out.push('s'); out.push('c');
    out.push('r'); out.push('i'); out.push('p'); out.push('t'); out.push('i'); out.push('o');
    out.push('n'); out.push('"'); out.push(':');
    assert(out@ =~= old(out)@ + key_description());
}

fn push_key_sites(out: &mut Vec<char>)
    ensures
        final(out)@ == old(out)@ + key_sites(),
{
    out.push(','); out.push('"'); out.push('s'); out.push('i'); out.push('t'); out.push('e');
    out.push('s'); out.push('"'); out.push(':');
    assert(out@ =~= old(out)@ + key_sites());
}

fn push_key_manifest(out: &mut Vec<char>)
    ensures
        final(out)@ == old(out)@ + key_manifest(),
{
    out.push(','); out.push('"'); out.push('m'); out.push('a'); out.push('n'); out.push('i');
    out.push('f'); out.push('e'); out.push('s'); out.push('t'); out.push('_'); out.push('u');
    out.push('r'); out.push('l'); out.push('"'); out.push(':');
    assert(out@ =~= old(out)@ + key_manifest());
}

fn push_key_document(out: &mut Vec<char>)
    ensures
        final(out)@ == old(out)@ + key_document(),
{
    out.push(','); out.push('"'); out.push('d'); out.push('o'); out.push('c'); out.push('u');
    out.push('m'); out.push('e'); out.push('n'); out.push('t'); out.push('_'); out.push('u');
    out.push('r'); out.push('l'); out.push('"'); out.push(':');
    assert(out@ =~= old(out)@ + key_document());
}

fn push_key_store_open(out: &mut Vec<char>)
    ensures
        final(out)@ == old(out)@ + key_store_open(),
{
    out.push('{'); out.push('"'); out.push('p'); out.push('r'); out.push('o'); out.push('f');
    out.push('i'); out.push('l'); out.push('e'); out.push('s'); out.push('"'); out.push(':');
    assert(out@ =~= old(out)@ + key_store_open());
}

fn push_escaped_from(out: &mut Vec<char>, s: &String, i: usize)
    requires
        i <= s@.len(),
    ensures
        final(out)@ == old(out)@ + spec_escape(s@.skip(i as int)),
    decreases s@.len() - i,
{
    let n = s.as_str().unicode_len();
    if i == n {
        assert(s@.skip(i as int) =~= Seq::<char>::empty());
        assert(out@ =~= old(out)@ + spec_escape(s@.skip(i as int)));
    } else {
        let ghost base = out@;
        let c = s.as_str().get_char(i);
        assert(c == s@.skip(i as int)[0]);
        if c == '"' {
            out.push('\\');
            out.push('"');
        } else if c == '\\' {
            out.push('\\');
            out.push('\\');
        } else {
            out.push(c);
        }
        assert(out@ =~= base + esc_char(c));
        push_escaped_from(out, s, i + 1);
        assert(s@.skip(i as int).skip(1) =~= s@.skip(i + 1));
        assert(spec_escape(s@.skip(i as int)) == esc_char(c) + spec_escape(s@.skip(i + 1)));
        assert(out@ =~= base + spec_escape(s@.skip(i as int)));
    }
}

fn push_str_value(out: &mut Vec<char>, s: &String)
    ensures
        final(out)@ == old(out)@ + spec_str(s@),
{
    let ghost base = out@;
    out.push('"');
    push_escaped_from(out, s, 0);
    out.push('"');
    assert(s@.skip(0) =~= s@);
    assert(out@ =~= base + spec_str(s@));
}

fn push_opt_value(out: &mut Vec<char>, v: &Option<String>)
    ensures
        final(out)@ == old(out)@ + spec_opt(match v {
            Some(s) => Some(s@),
            None => None,
        }),
{
    let ghost base = out@;
    match v {
        None => {
            out.push('n'); out.push('u'); out.push('l'); out.push('l');
            assert(out@ =~= base + lit_null());
        },
        Some(s) => {
            push_str_value(out, s);
        },
    }
}

fn push_qid(out: &mut Vec<char>, id: Identifier)
    ensures
        final(out)@ == old(out)@ + quoted_id(id),
{
    let ghost base = out@;
    out.push('"');
    crate::ids::encode_id_into(out, id);
    out.push('"');
    assert(out@ =~= base + quoted_id(id));
}

fn push_id_items_from(out: &mut Vec<char>, ids: &Vec<Identifier>, i: usize)
    requires
        i <= ids@.len(),
    ensures
        final(out)@ == old(out)@ + spec_id_items(ids@.skip(i as int)),
    decreases ids@.len() - i,
{
    let ghost base = out@;
    if i == ids.len() {
        assert(ids@.skip(i as int) =~= Seq::<Identifier>::empty());
        assert(out@ =~= base + spec_id_items(ids@.skip(i as int)));
    } else {
        assert(ids@.skip(i as int)[0] == ids@[i as int]);
        push_qid(out, ids[i]);
        if i + 1 == ids.len() {
            assert(ids@.skip(i as int).len() == 1);
            assert(out@ =~= base + spec_id_items(ids@.skip(i as int)));
        } else {
            out.push(',');
            push_id_items_from(out, ids, i + 1);
            assert(ids@.skip(i as int).skip(1) =~= ids@.skip(i + 1));
            assert(spec_id_items(ids@.skip(i as int)) == quoted_id(ids@[i as int]) + seq![',']
                + spec_id_items(ids@.skip(i + 1)));
            assert(out@ =~= base + spec_id_items(ids@.skip(i as int)));
        }
    }
}

fn push_profile_record(out: &mut Vec<char>, p: &Profile)
    ensures
        final(out)@ == old(out)@ + spec_enc_profile(p@),
{
    proof {
        reveal(spec_enc_profile);
    }
    let ghost base = out@;
    push_key_name(out);
    push_opt_value(out, &p.name);
    push_key_description(out);
    push_opt_value(out, &p.description);
    push_key_sites(out);
    out.push('[');
    push_id_items_from(out, &p.sites, 0);
    out.push(']');
    out.push('}');
    assert(p.sites@.skip(0) =~= p.sites@);
    assert(out@ =~= base + spec_enc_profile(p@));
}

fn push_site_record(out: &mut Vec<char>, st: &Site)
    ensures
        final(out)@ == old(out)@ + spec_enc_site(st@),
{
    proof {
        reveal(spec_enc_site);
    }
    let ghost base = out@;
    push_key_name(out);
    push_str_value(out, &st.name);
    push_key_manifest(out);
    push_str_value(out, &st.manifest_url);
    push_key_document(out);
    push_str_value(out, &st.document_url);
    out.push('}');
    assert(out@ =~= base + spec_enc_site(st@));
}

fn push_pentries_from(out: &mut Vec<char>, profiles: &Vec<Profile>, i: usize)
    requires
        i <= profiles@.len(),
    ensures
        final(out)@ == old(out)@ + spec_pentries(
            profiles@.map_values(|p: Profile| p@).skip(i as int),
        ),
    decreases profiles@.len() - i,
{
    proof {
        reveal(spec_pentries);
    }
    let ghost base = out@;
    let ghost ps = profiles@.map_values(|p: Profile| p@).skip(i as int);
    if i == profiles.len() {
        assert(ps =~= Seq::<ProfileView>::empty());
        assert(out@ =~= base + spec_pentries(ps));
    } else {
        assert(ps[0] == profiles@[i as int]@);
        push_qid(out, profiles[i].id);
        out.push(':');
        push_profile_record(out, &profiles[i]);
        assert(profiles@[i as int]@.id == profiles@[i as int].id);
        if i + 1 == profiles.len() {
            assert(ps.len() == 1);
            assert(out@ =~= base + spec_pentry(ps[0]));
            assert(out@ =~= base + spec_pentries(ps));
        } else {
            out.push(',');
            push_pentries_from(out, profiles, i + 1);
            assert(ps.skip(1) =~= profiles@.map_values(|p: Profile| p@).skip(i + 1));
            assert(spec_pentries(ps) == spec_pentry(ps[0]) + seq![','] + spec_pentries(
                ps.skip(1)));
            assert(out@ =~= base + spec_pentries(ps));
        }
    }
}

fn push_sentries_from(out: &mut Vec<char>, sites: &Vec<Site>, i: usize)
    requires
        i <= sites@.len(),
    ensures
        final(out)@ == old(out)@ + spec_sentries(
            sites@.map_values(|st: Site| st@).skip(i as int),
        ),
    decreases sites@.len() - i,
{
    proof {
        reveal(spec_sentries);
    }
    let ghost base = out@;
    let ghost ss = sites@.map_values(|st: Site| st@).skip(i as int);
    if i == sites.len() {
        assert(ss =~= Seq::<SiteView>::empty());
        assert(out@ =~= base + spec_sentries(ss));
    } else {
        assert(ss[0] == sites@[i as int]@);
        push_qid(out, sites[i].id);
        out.push(':');
        push_site_record(out, &sites[i]);
        assert(sites@[i as int]@.id == sites@[i as int].id);
        if i + 1 == sites.len() {
            assert(ss.len() == 1);
            assert(out@ =~= base + spec_sentry(ss[0]));
            assert(out@ =~= base + spec_sentries(ss));
        } else {
            out.push(',');
            push_sentries_from(out, sites, i + 1);
            assert(ss.skip(1) =~= sites@.map_values(|st: Site| st@).skip(i + 1));
            assert(spec_sentries(ss) == spec_sentry(ss[0]) + seq![','] + spec_sentries(
                ss.skip(1)));
            assert(out@ =~= base + spec_sentries(ss));
        }
    }
}

impl Store {
    /// Serializes the whole store as its canonical document.  Persistence
    /// is all-or-nothing: there is no partial-record update.
    pub fn to_text(&self) -> (r: Vec<char>)
        ensures
            r@ == spec_enc_store(self@),
    {
        let mut out: Vec<char> = Vec::new();
        push_key_store_open(&mut out);
        out.push('{');
        push_pentries_from(&mut out, &self.profiles, 0);
        out.push('}');
        push_key_sites(&mut out);
        out.push('{');
        push_sentries_from(&mut out, &self.sites, 0);
        out.push('}');
        out.push('}');
        assert(self.profiles@.map_values(|p: Profile| p@).skip(0)
            =~= self@.profiles);
        assert(self.sites@.map_values(|st: Site| st@).skip(0) =~= self@.sites);
        assert(out@ =~= spec_enc_store(self@));
        out
    }
}


// ------------------------------------------------------------ exec parsing

proof fn lemma_begins_chars(s: Seq<char>, lit: Seq<char>)
    requires
        begins(s, lit),
    ensures
        forall|k: int| 0 <= k < lit.len() ==> s[k] == lit[k],
{
    assert forall|k: int| 0 <= k < lit.len() implies s[k] == lit[k] by {
        assert(s.subrange(0, lit.len() as int)[k] == s[k]);
    };
}

fn check_key(t: &Vec<char>, i: usize, which: u8) -> (b: bool)
    requires
        i <= t@.len(),
        which < 6,
    ensures
        which == 0 ==> b == begins(t@.skip(i as int), key_name()),
        which == 1 ==> b == begins(t@.skip(i as int), key_description()),
        which == 2 ==> b == begins(t@.skip(i as int), key_sites()),
        which == 3 ==> b == begins(t@.skip(i as int), key_manifest()),
        which == 4 ==> b == begins(t@.skip(i as int), key_document()),
        which == 5 ==> b == begins(t@.skip(i as int), key_store_open()),
{
    let ghost s = t@.skip(i as int);
    let n = t.len();
    if which == 0 {
        if n - i < 8 {
            return false;
        }
        let b = t[i] == '{' && t[i + 1] == '"' && t[i + 2] == 'n' && t[i + 3] == 'a'
            && t[i + 4] == 'm' && t[i + 5] == 'e' && t[i + 6] == '"' && t[i + 7] == ':';
        proof {
            if b {
                assert(s.subrange(0, 8) =~= key_name());
            } else if begins(s, key_name()) {
                lemma_begins_chars(s, key_name());
            }
        }
        b
    } else if which == 1 {
        if n - i < 15 {
            return false;
        }
        let b = t[i] == ',' && t[i + 1] == '"' && t[i + 2] == 'd' && t[i + 3] == 'e'
            && t[i + 4] == 's' && t[i + 5] == 'c' && t[i + 6] == 'r' && t[i + 7] == 'i'
            && t[i + 8] == 'p' && t[i + 9] == 't' && t[i + 10] == 'i' && t[i + 11] == 'o'
            && t[i + 12] == 'n' && t[i + 13] == '"' && t[i + 14] == ':';
        proof {
            if b {
                assert(s.subrange(0, 15) =~= key_description());
            } else if begins(s, key_description()) {
                lemma_begins_chars(s, key_description());
            }
        }
        b
    } else if which == 2 {
        if n - i < 9 {
            return false;
        }
        let b = t[i] == ',' && t[i + 1] == '"' && t[i + 2] == 's' && t[i + 3] == 'i'
            && t[i + 4] == 't' && t[i + 5] == 'e' && t[i + 6] == 's' && t[i + 7] == '"'
            && t[i + 8] == ':';
        proof {
            if b {
                assert(s.subrange(0, 9) =~= key_sites());
            } else if begins(s, key_sites()) {
                lemma_begins_chars(s, key_sites());
            }
        }
        b
    } else if which == 3 {
        if n - i < 16 {
            return false;
        }
        let b = t[i] == ',' && t[i + 1] == '"' && t[i + 2] == 'm' && t[i + 3] == 'a'
            && t[i + 4] == 'n' && t[i + 5] == 'i' && t[i + 6] == 'f' && t[i + 7] == 'e'
            && t[i + 8] == 's' && t[i + 9] == 't' && t[i + 10] == '_' && t[i + 11] == 'u'
            && t[i + 12] == 'r' && t[i + 13] == 'l' && t[i + 14] == '"' && t[i + 15] == ':';
        proof {
            if b {
                assert(s.subrange(0, 16) =~= key_manifest());
            } else if begins(s, key_manifest()) {
                lemma_begins_chars(s, key_manifest());
            }
        }
        b
    } else if which == 4 {
        if n - i < 16 {
            return false;
        }
        let b = t[i] == ',' && t[i + 1] == '"' && t[i + 2] == 'd' && t[i + 3] == 'o'
            && t[i + 4] == 'c' && t[i + 5] == 'u' && t[i + 6] == 'm' && t[i + 7] == 'e'
            && t[i + 8] == 'n' && t[i + 9] == 't' && t[i + 10] == '_' && t[i + 11] == 'u'
            && t[i + 12] == 'r' && t[i + 13] == 'l' && t[i + 14] == '"' && t[i + 15] == ':';
        proof {
            if b {
                assert(s.subrange(0, 16) =~= key_document());
            } else if begins(s, key_document()) {
                lemma_begins_chars(s, key_document());
            }
        }
        b
    } else {
        if n - i < 12 {
            return false;
        }
        let b = t[i] == '{' && t[i + 1] == '"' && t[i + 2] == 'p' && t[i + 3] == 'r'
            && t[i + 4] == 'o' && t[i + 5] == 'f' && t[i + 6] == 'i' && t[i + 7] == 'l'
            && t[i + 8] == 'e' && t[i + 9] == 's' && t[i + 10] == '"' && t[i + 11] == ':';
        proof {
            if b {
                assert(s.subrange(0, 12) =~= key_store_open());
            } else if begins(s, key_store_open()) {
                lemma_begins_chars(s, key_store_open());
            }
        }
        b
    }
}

fn p_strbody(t: &Vec<char>, i: usize) -> (r: Option<(Vec<char>, usize)>)
    requires
        i <= t@.len(),
    ensures
        match r {
            Some((s, j)) => i < j <= t@.len() && parse_strbody(t@.skip(i as int))
                == Some((s@, (j - i) as int)),
            None => parse_strbody(t@.skip(i as int)) is None,
        },
    decreases t@.len() - i,
{
    let ghost s = t@.skip(i as int);
    if i == t.len() {
        assert(s.len() == 0);
        return None;
    }
    let c = t[i];
    assert(c == s[0]);
    if c == '"' {
        Some((Vec::new(), i + 1))
    } else if c == '\\' {
        if t.len() - i > 1 && (t[i + 1] == '"' || t[i + 1] == '\\') {
            let e = t[i + 1];
            assert(e == s[1]);
            assert(s.skip(2) =~= t@.skip(i + 2));
            match p_strbody(t, i + 2) {
                Some((mut body, j)) => {
                    body.insert(0, e);
                    Some((body, j))
                },
                None => None,
            }
        } else {
            assert(s.len() >= 2 ==> s[1] == t@[i + 1]);
            None
        }
    } else {
        assert(s.skip(1) =~= t@.skip(i + 1));
        match p_strbody(t, i + 1) {
            Some((mut body, j)) => {
                body.insert(0, c);
                Some((body, j))
            },
            None => None,
        }
    }
}

fn p_str(t: &Vec<char>, i: usize) -> (r: Option<(String, usize)>)
    requires
        i <= t@.len(),
    ensures
        match r {
            Some((s, j)) => i < j <= t@.len() && parse_str(t@.skip(i as int))
                == Some((s@, (j - i) as int)),
            None => parse_str(t@.skip(i as int)) is None,
        },
{
    let ghost s = t@.skip(i as int);
    if i < t.len() && t[i] == '"' {
        assert(s[0] == '"');
        assert(s.skip(1) =~= t@.skip(i + 1));
        match p_strbody(t, i + 1) {
            Some((body, j)) => {
                let st = crate::text::chars_to_string(&body);
                Some((st, j))
            },
            None => None,
        }
    } else {
        assert(s.len() > 0 ==> s[0] == t@[i as int]);
        None
    }
}

fn p_opt(t: &Vec<char>, i: usize) -> (r: Option<(Option<String>, usize)>)
    requires
        i <= t@.len(),
    ensures
        match r {
            Some((v, j)) => i < j <= t@.len() && parse_opt(t@.skip(i as int)) == Some((
                match v {
                    Some(s) => Some(s@),
                    None => None,
                },
                (j - i) as int,
            )),
            None => parse_opt(t@.skip(i as int)) is None,
        },
{
    let ghost s = t@.skip(i as int);
    if i == t.len() {
        assert(s.len() == 0);
        return None;
    }
    if t[i] == 'n' {
        assert(s[0] == 'n');
        if t.len() - i >= 4 && t[i + 1] == 'u' && t[i + 2] == 'l' && t[i + 3] == 'l' {
            assert(s.len() >= 4 && s[1] == 'u' && s[2] == 'l' && s[3] == 'l');
            Some((None, i + 4))
        } else {
            assert(s.len() >= 4 ==> (s[1] == t@[i + 1] && s[2] == t@[i + 2] && s[3] == t@[
                i + 3]));
            None
        }
    } else {
        assert(s[0] != 'n');
        match p_str(t, i) {
            Some((st, j)) => Some((Some(st), j)),
            None => None,
        }
    }
}

fn p_qid(t: &Vec<char>, i: usize) -> (r: Option<Identifier>)
    requires
        i <= t@.len(),
    ensures
        match r {
            Some(id) => i + 28 <= t@.len() && parse_qid(t@.skip(i as int)) == Some(id),
            None => parse_qid(t@.skip(i as int)) is None,
        },
{
    let ghost s = t@.skip(i as int);
    if t.len() - i < 28 {
        assert(s.len() < 28);
        return None;
    }
    if t[i] != '"' || t[i + 27] != '"' {
        assert(s[0] == t@[i as int] && s[27] == t@[i + 27]);
        return None;
    }
    assert(s[0] == '"' && s[27] == '"');
    assert(s.subrange(1, 27) =~= t@.subrange(i + 1, i + 27));
    let d = crate::ids::decode_id_at(t, i + 1);
    assert(t@.subrange(i + 1, i + 1 + 26) =~= t@.subrange(i + 1, i + 27));
    match d {
        Some(id) => Some(id),
        None => None,
    }
}

fn p_id_items(t: &Vec<char>, i: usize) -> (r: Option<(Vec<Identifier>, usize)>)
    requires
        i <= t@.len(),
    ensures
        match r {
            Some((ids, j)) => i < j <= t@.len() && parse_id_items(t@.skip(i as int))
                == Some((ids@, (j - i) as int)),
            None => parse_id_items(t@.skip(i as int)) is None,
        },
    decreases t@.len() - i,
{
    let ghost s = t@.skip(i as int);
    match p_qid(t, i) {
        None => None,
        Some(id) => {
            if t.len() - i > 28 && t[i + 28] == ',' {
                assert(28 < s.len() && s[28] == ',');
                assert(s.skip(29) =~= t@.skip(i + 29));
                match p_id_items(t, i + 29) {
                    Some((mut ids, j)) => {
                        ids.insert(0, id);
                        Some((ids, j))
                    },
                    None => None,
                }
            } else if t.len() - i > 28 && t[i + 28] == ']' {
                assert(28 < s.len() && s[28] == ']');
                let mut ids: Vec<Identifier> = Vec::new();
                ids.push(id);
                assert(ids@ =~= seq![id]);
                Some((ids, i + 29))
            } else {
                assert(28 < s.len() ==> s[28] == t@[i + 28]);
                None
            }
        },
    }
}

fn p_id_arr(t: &Vec<char>, i: usize) -> (r: Option<(Vec<Identifier>, usize)>)
    requires
        i <= t@.len(),
    ensures
        match r {
            Some((ids, j)) => i < j <= t@.len() && parse_id_arr(t@.skip(i as int))
                == Some((ids@, (j - i) as int)),
            None => parse_id_arr(t@.skip(i as int)) is None,
        },
{
    let ghost s = t@.skip(i as int);
    if t.len() - i >= 2 && t[i] == '[' {
        assert(s.len() >= 2 && s[0] == '[');
        if t[i + 1] == ']' {
            assert(s[1] == ']');
            let ids: Vec<Identifier> = Vec::new();
            assert(ids@ =~= Seq::<Identifier>::empty());
            Some((ids, i + 2))
        } else {
            assert(s[1] == t@[i + 1] && s[1] != ']');
            assert(s.skip(1) =~= t@.skip(i + 1));
            match p_id_items(t, i + 1) {
                Some((ids, j)) => Some((ids, j)),
                None => None,
            }
        }
    } else {
        assert(s.len() >= 2 ==> s[0] == t@[i as int]);
        None
    }
}


#[verifier::rlimit(100)]
#[verifier::spinoff_prover]
fn p_profile(t: &Vec<char>, i: usize) -> (r: Option<
    ((Option<String>, Option<String>, Vec<Identifier>), usize),
>)
    requires
        i <= t@.len(),
    ensures
        match r {
            Some((f, j)) => i < j <= t@.len() && parse_profile(t@.skip(i as int)) == Some(((
                match f.0 {
                    Some(s) => Some(s@),
                    None => None,
                },
                match f.1 {
                    Some(s) => Some(s@),
                    None => None,
                },
                f.2@,
            ), (j - i) as int)),
            None => parse_profile(t@.skip(i as int)) is None,
        },
{
    proof {
        reveal(parse_profile);
    }
    let n = t.len();
    assert(n == t@.len());
    let ghost s = t@.skip(i as int);
    if !check_key(t, i, 0) {
        return None;
    }
    assert(i + 8 <= t@.len());
    assert(s.skip(8) =~= t@.skip(i + 8));
    let (name, j1) = match p_opt(t, i + 8) {
        Some(x) => x,
        None => {
            return None;
        },
    };
    assert(s.skip(8 + (j1 - (i + 8))) =~= t@.skip(j1 as int));
    if !check_key(t, j1, 1) {
        return None;
    }
    assert(j1 + 15 <= t@.len());
    assert(t@.skip(j1 as int).skip(15) =~= t@.skip(j1 + 15));
    let (desc, j2) = match p_opt(t, j1 + 15) {
        Some(x) => x,
        None => {
            return None;
        },
    };
    assert(t@.skip(j1 as int).skip(15 + (j2 - (j1 + 15))) =~= t@.skip(j2 as int));
    if !check_key(t, j2, 2) {
        return None;
    }
    assert(j2 + 9 <= t@.len());
    assert(t@.skip(j2 as int).skip(9) =~= t@.skip(j2 + 9));
    let (ids, j3) = match p_id_arr(t, j2 + 9) {
        Some(x) => x,
        None => {
            return None;
        },
    };
    assert(t@.skip(j2 as int).skip(9 + (j3 - (j2 + 9))) =~= t@.skip(j3 as int));
    if j3 < t.len() && t[j3] == '}' {
        assert(t@.skip(j3 as int)[0] == '}');
        Some(((name, desc, ids), j3 + 1))
    } else {
        assert(t@.skip(j3 as int).len() > 0 ==> t@.skip(j3 as int)[0] == t@[j3 as int]);
        None
    }
}

#[verifier::rlimit(100)]
#[verifier::spinoff_prover]
fn p_site(t: &Vec<char>, i: usize) -> (r: Option<((String, String, String), usize)>)
    requires
        i <= t@.len(),
    ensures
        match r {
            Some((f, j)) => i < j <= t@.len() && parse_site(t@.skip(i as int))
                == Some(((f.0@, f.1@, f.2@), (j - i) as int)),
            None => parse_site(t@.skip(i as int)) is None,
        },
{
    proof {
        reveal(parse_site);
    }
    let n = t.len();
    assert(n == t@.len());
    let ghost s = t@.skip(i as int);
    if !check_key(t, i, 0) {
        return None;
    }
    assert(i + 8 <= t@.len());
    assert(s.skip(8) =~= t@.skip(i + 8));
    let (name, j1) = match p_str(t, i + 8) {
        Some(x) => x,
        None => {
            return None;
        },
    };
    assert(s.skip(8 + (j1 - (i + 8))) =~= t@.skip(j1 as int));
    if !check_key(t, j1, 3) {
        return None;
    }
    assert(j1 + 16 <= t@.len());
    assert(t@.skip(j1 as int).skip(16) =~= t@.skip(j1 + 16));
    let (mu, j2) = match p_str(t, j1 + 16) {
        Some(x) => x,
        None => {
            return None;
        },
    };
    assert(t@.skip(j1 as int).skip(16 + (j2 - (j1 + 16))) =~= t@.skip(j2 as int));
    if !check_key(t, j2, 4) {
        return None;
    }
    assert(j2 + 16 <= t@.len());
    assert(t@.skip(j2 as int).skip(16) =~= t@.skip(j2 + 16));
    let (du, j3) = match p_str(t, j2 + 16) {
        Some(x) => x,
        None => {
            return None;
        },
    };
    assert(t@.skip(j2 as int).skip(16 + (j3 - (j2 + 16))) =~= t@.skip(j3 as int));
    if j3 < t.len() && t[j3] == '}' {
        assert(t@.skip(j3 as int)[0] == '}');
        Some(((name, mu, du), j3 + 1))
    } else {
        assert(t@.skip(j3 as int).len() > 0 ==> t@.skip(j3 as int)[0] == t@[j3 as int]);
        None
    }
}

#[verifier::rlimit(100)]
#[verifier::spinoff_prover]
fn p_pentries(t: &Vec<char>, i: usize) -> (r: Option<(Vec<Profile>, usize)>)
    requires
        i <= t@.len(),
    ensures
        match r {
            Some((ps, j)) => i < j <= t@.len() && parse_pentries(t@.skip(i as int))
                == Some((ps@.map_values(|p: Profile| p@), (j - i) as int)),
            None => parse_pentries(t@.skip(i as int)) is None,
        },
    decreases t@.len() - i,
{
    proof {
        reveal(parse_pentries);
    }
    let ghost s = t@.skip(i as int);
    let id = match p_qid(t, i) {
        Some(id) => id,
        None => {
            return None;
        },
    };
    if !(t.len() - i > 28 && t[i + 28] == ':') {
        assert(28 < s.len() ==> s[28] == t@[i + 28]);
        return None;
    }
    assert(s[28] == ':');
    assert(s.skip(29) =~= t@.skip(i + 29));
    let (f, j) = match p_profile(t, i + 29) {
        Some(x) => x,
        None => {
            return None;
        },
    };
    let ghost pv = ProfileView {
        id,
        name: match f.0 {
            Some(ref s2) => Some(s2@),
            None => None,
        },
        description: match f.1 {
            Some(ref s2) => Some(s2@),
            None => None,
        },
        sites: f.2@,
    };
    let prof = Profile { id, name: f.0, description: f.1, sites: f.2 };
    assert(prof@ =~= pv);
    assert(29 <= j - i);
    if j < t.len() && t[j] == ',' {
        assert(s[j - i] == ',');
        assert(s.skip((j - i) + 1) =~= t@.skip(j + 1));
        match p_pentries(t, j + 1) {
            Some((mut ps, j2)) => {
                let ghost pso = ps@;
                ps.insert(0, prof);
                proof {
                    assert(ps@ =~= seq![prof] + pso);
                    assert(ps@.map_values(|p: Profile| p@) =~= seq![pv] + pso.map_values(
                        |p: Profile| p@));
                }
                Some((ps, j2))
            },
            None => None,
        }
    } else if j < t.len() && t[j] == '}' {
        assert(s[j - i] == '}');
        let mut ps: Vec<Profile> = Vec::new();
        ps.push(prof);
        assert(ps@.map_values(|p: Profile| p@) =~= seq![pv]);
        Some((ps, j + 1))
    } else {
        assert(j - i < s.len() ==> s[j - i] == t@[j as int]);
        None
    }
}

#[verifier::rlimit(100)]
#[verifier::spinoff_prover]
fn p_sentries(t: &Vec<char>, i: usize) -> (r: Option<(Vec<Site>, usize)>)
    requires
        i <= t@.len(),
    ensures
        match r {
            Some((ss, j)) => i < j <= t@.len() && parse_sentries(t@.skip(i as int))
                == Some((ss@.map_values(|st: Site| st@), (j - i) as int)),
            None => parse_sentries(t@.skip(i as int)) is None,
        },
    decreases t@.len() - i,
{
    proof {
        reveal(parse_sentries);
    }
    let ghost s = t@.skip(i as int);
    let id = match p_qid(t, i) {
        Some(id) => id,
        None => {
            return None;
        },
    };
    if !(t.len() - i > 28 && t[i + 28] == ':') {
        assert(28 < s.len() ==> s[28] == t@[i + 28]);
        return None;
    }
    assert(s[28] == ':');
    assert(s.skip(29) =~= t@.skip(i + 29));
    let (f, j) = match p_site(t, i + 29) {
        Some(x) => x,
        None => {
            return None;
        },
    };
    let site = Site { id, name: f.0, manifest_url: f.1, document_url: f.2 };
    let ghost sv = SiteView { id, name: site.name@, manifest_url: site.manifest_url@,
        document_url: site.document_url@ };
    assert(site@ =~= sv);
    assert(29 <= j - i);
    if j < t.len() && t[j] == ',' {
        assert(s[j - i] == ',');
        assert(s.skip((j - i) + 1) =~= t@.skip(j + 1));
        match p_sentries(t, j + 1) {
            Some((mut ss, j2)) => {
                let ghost sso = ss@;
                ss.insert(0, site);
                proof {
                    assert(ss@ =~= seq![site] + sso);
                    assert(ss@.map_values(|st: Site| st@) =~= seq![sv] + sso.map_values(
                        |st: Site| st@));
                }
                Some((ss, j2))
            },
            None => None,
        }
    } else if j < t.len() && t[j] == '}' {
        assert(s[j - i] == '}');
        let mut ss: Vec<Site> = Vec::new();
        ss.push(site);
        assert(ss@.map_values(|st: Site| st@) =~= seq![sv]);
        Some((ss, j + 1))
    } else {
        assert(j - i < s.len() ==> s[j - i] == t@[j as int]);
        None
    }
}

fn p_pobj(t: &Vec<char>, i: usize) -> (r: Option<(Vec<Profile>, usize)>)
    requires
        i <= t@.len(),
    ensures
        match r {
            Some((ps, j)) => i < j <= t@.len() && parse_pobj(t@.skip(i as int))
                == Some((ps@.map_values(|p: Profile| p@), (j - i) as int)),
            None => parse_pobj(t@.skip(i as int)) is None,
        },
{
    let ghost s = t@.skip(i as int);
    if t.len() - i >= 2 && t[i] == '{' {
        assert(s.len() >= 2 && s[0] == '{');
        if t[i + 1] == '}' {
            assert(s[1] == '}');
            let ps: Vec<Profile> = Vec::new();
            assert(ps@.map_values(|p: Profile| p@) =~= Seq::<ProfileView>::empty());
            Some((ps, i + 2))
        } else {
            assert(s[1] == t@[i + 1] && s[1] != '}');
            assert(s.skip(1) =~= t@.skip(i + 1));
            match p_pentries(t, i + 1) {
                Some((ps, j)) => Some((ps, j)),
                None => None,
            }
        }
    } else {
        assert(s.len() >= 2 ==> s[0] == t@[i as int]);
        None
    }
}

fn p_sobj(t: &Vec<char>, i: usize) -> (r: Option<(Vec<Site>, usize)>)
    requires
        i <= t@.len(),
    ensures
        match r {
            Some((ss, j)) => i < j <= t@.len() && parse_sobj(t@.skip(i as int))
                == Some((ss@.map_values(|st: Site| st@), (j - i) as int)),
            None => parse_sobj(t@.skip(i as int)) is None,
        },
{
    let ghost s = t@.skip(i as int);
    if t.len() - i >= 2 && t[i] == '{' {
        assert(s.len() >= 2 && s[0] == '{');
        if t[i + 1] == '}' {
            assert(s[1] == '}');
            let ss: Vec<Site> = Vec::new();
            assert(ss@.map_values(|st: Site| st@) =~= Seq::<SiteView>::empty());
            Some((ss, i + 2))
        } else {
            assert(s[1] == t@[i + 1] && s[1] != '}');
            assert(s.skip(1) =~= t@.skip(i + 1));
            match p_sentries(t, i + 1) {
                Some((ss, j)) => Some((ss, j)),
                None => None,
            }
        }
    } else {
        assert(s.len() >= 2 ==> s[0] == t@[i as int]);
        None
    }
}

impl Store {
    /// Parses a state-file document.  The result is well formed and the
    /// exact store the document encodes; any text that is not a canonical
    /// document of a well-formed store is `Corrupt`, never repaired.
    #[verifier::rlimit(100)]
    #[verifier::spinoff_prover]
    pub fn from_text(t: &Vec<char>) -> (r: Result<Store, Error>)
        ensures
            match r {
                Ok(st) => st@.wf() && spec_parse_store(t@) == Some(st@),
                Err(e) => e == Error::Corrupt && (match spec_parse_store(t@) {
                    Some(sv) => !sv.wf(),
                    None => true,
                }),
            },
    {
        let n = t.len();
        assert(n == t@.len());
        assert(t@.skip(0) =~= t@);
        if !check_key(t, 0, 5) {
            return Err(Error::Corrupt);
        }
        assert(t@.skip(0).skip(12) =~= t@.skip(12));

        let (ps, j1) = match p_pobj(t, 12) {
            Some(x) => x,
            None => {
                return Err(Error::Corrupt);
            },
        };
        assert(t@.skip(12 + (j1 - 12)) =~= t@.skip(j1 as int));
        if !check_key(t, j1, 2) {
            return Err(Error::Corrupt);
        }
        assert(j1 + 9 <= t@.len());
        assert(t@.skip(j1 as int).skip(9) =~= t@.skip(j1 + 9));
        let (ss, j2) = match p_sobj(t, j1 + 9) {
            Some(x) => x,
            None => {
                return Err(Error::Corrupt);
            },
        };
        assert(t@.skip(j1 as int).skip(9 + (j2 - (j1 + 9))) =~= t@.skip(j2 as int));
        if !(t.len() - j2 == 1 && t[j2] == '}') {
            assert(t@.skip(j2 as int).len() == t@.len() - j2);
            assert(t@.skip(j2 as int).len() > 0 ==> t@.skip(j2 as int)[0] == t@[j2 as int]);
            return Err(Error::Corrupt);
        }
        assert(t@.skip(j2 as int).len() == 1 && t@.skip(j2 as int)[0] == '}');
        let st = Store { profiles: ps, sites: ss };
        assert(st@ == (StoreView {
            profiles: ps@.map_values(|p: Profile| p@),
            sites: ss@.map_values(|s2: Site| s2@),
        }));
        if st.check_wf() {
            Ok(st)
        } else {
            Err(Error::Corrupt)
        }
    }

    /// Loads the store: a missing state file yields the freshly initialized
    /// store whose only profile is the nil profile with no sites; an
    /// existing one is parsed.
    pub fn load(text: Option<&Vec<char>>) -> (r: Result<Store, Error>)
        ensures
            match text {
                None => match r {
                    Ok(st) => st@ == StoreView::initial() && st@.wf(),
                    Err(_) => false,
                },
                Some(tx) => match r {
                    Ok(st) => st@.wf() && spec_parse_store(tx@) == Some(st@),
                    Err(e) => e == Error::Corrupt && (match spec_parse_store(tx@) {
                        Some(sv) => !sv.wf(),
                        None => true,
                    }),
                },
            },
    {
        match text {
            None => Ok(Store::initial()),
            Some(t) => Store::from_text(t),
        }
    }
}

} // verus!
