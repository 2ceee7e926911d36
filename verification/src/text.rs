//! Character-level text utilities: the bridge between `String` and
//! `Vec<char>`, and the interactive-confirmation predicate used before
//! destructive operations.

use vstd::prelude::*;

verus! {

/// Relies on `String: FromIterator<char>`: collecting characters yields the
/// string of exactly those characters, in order.
#[verifier::external_body]
pub fn chars_to_string(v: &Vec<char>) -> (r: String)
    ensures
        r@ == v@,
{
    v.iter().copied().collect()
}

/// Appends every character of `s` to `out`.
pub fn append_string_chars(out: &mut Vec<char>, s: &String)
    ensures
        final(out)@ == old(out)@ + s@,
{
    let ghost base = out@;
    let n = s.as_str().unicode_len();
    let mut i: usize = 0;
    while i < n
        invariant
            n == s@.len(),
            i <= n,
            out@ == base + s@.take(i as int),
        decreases n - i,
    {
        let c = s.as_str().get_char(i);
        out.push(c);
        assert(out@ =~= base + s@.take(i + 1));
        i += 1;
    }
    assert(out@ =~= base + s@);
}

pub open spec fn spec_is_space(c: char) -> bool {
    c == ' ' || c == '\t' || c == '\r' || c == '\n'
}

/// `s` with leading and trailing whitespace removed.
pub open spec fn spec_trim(s: Seq<char>) -> Seq<char>
    decreases s.len(),
{
    if s.len() == 0 {
        s
    } else if spec_is_space(s[0]) {
        spec_trim(s.skip(1))
    } else if spec_is_space(s[s.len() - 1]) {
        spec_trim(s.take(s.len() - 1))
    } else {
        s
    }
}

/// Whether an interactive answer is the explicit affirmative that a
/// destructive operation demands: exactly `Y` or `y` once whitespace is
/// trimmed.  Anything else aborts the operation.
pub open spec fn spec_confirmation(s: Seq<char>) -> bool {
    spec_trim(s) == seq!['Y'] || spec_trim(s) == seq!['y']
}

fn is_space(c: char) -> (r: bool)
    ensures
        r == spec_is_space(c),
{
    c == ' ' || c == '\t' || c == '\r' || c == '\n'
}

/// Whether `answer` is an explicit affirmative.
pub fn confirmation_accepted(answer: &str) -> (r: bool)
    ensures
        r == spec_confirmation(answer@),
{
    let n = answer.unicode_len();
    let mut lo: usize = 0;
    let mut hi: usize = n;
    let mut done = false;
    assert(answer@.subrange(0, n as int) =~= answer@);
    while !done && lo < hi
        invariant
            lo <= hi <= n,
            n == answer@.len(),
            spec_trim(answer@) == spec_trim(answer@.subrange(lo as int, hi as int)),
            done ==> lo < hi && !spec_is_space(answer@[lo as int])
                && !spec_is_space(answer@[hi - 1]),
        decreases hi - lo, (if done { 0int } else { 1int }),
    {
        let ghost sub = answer@.subrange(lo as int, hi as int);
        let c = answer.get_char(lo);
        assert(c == sub[0]);
        if is_space(c) {
            assert(sub.skip(1) =~= answer@.subrange(lo + 1, hi as int));
            lo += 1;
        } else {
            let d = answer.get_char(hi - 1);
            assert(d == sub[sub.len() - 1]);
            if is_space(d) {
                assert(sub.take(sub.len() - 1) =~= answer@.subrange(lo as int, hi - 1));
                hi -= 1;
            } else {
                assert(spec_trim(sub) == sub);
                done = true;
            }
        }
    }
    let ghost t = spec_trim(answer@);
    if lo >= hi {
        assert(answer@.subrange(lo as int, hi as int).len() == 0);
        assert(t.len() == 0);
        assert(t != seq!['Y'] && t != seq!['y']);
        return false;
    }
    assert(t == answer@.subrange(lo as int, hi as int));
    if hi - lo == 1 {
        let c = answer.get_char(lo);
        assert(c == t[0]);
        if c == 'Y' || c == 'y' {
            assert(t =~= seq![c]);
            return true;
        }
        assert(t.len() == 1);
        assert(t != seq!['Y']) by {
            assert(t[0] != 'Y');
        };
        assert(t != seq!['y']) by {
            assert(t[0] != 'y');
        };
        return false;
    }
    assert(t.len() != 1);
    assert(t != seq!['Y'] && t != seq!['y']);
    false
}

} // verus!
