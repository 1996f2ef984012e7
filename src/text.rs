use vstd::prelude::*;

verus! {

/// The lower-case form of a text, as Rust's Unicode case mapping gives it.
pub uninterp spec fn lower_of(s: Seq<char>) -> Seq<char>;

/// Relies on `str::to_lowercase`: its result depends on the characters of `s`
/// alone.
#[verifier::external_body]
fn lowercase(s: &str) -> (r: String)
    ensures
        r@ == lower_of(s@),
{
    s.to_lowercase()
}

/// `pat` occurs in `hay` starting at position `i`.
pub open spec fn occurs_at(hay: Seq<char>, pat: Seq<char>, i: int) -> bool {
    0 <= i && i + pat.len() <= hay.len() && hay.subrange(i, i + pat.len()) == pat
}

/// `pat` occurs somewhere in `hay`.
pub open spec fn has_infix(hay: Seq<char>, pat: Seq<char>) -> bool {
    exists|i: int| occurs_at(hay, pat, i)
}

/// The word that marks an exhibition event.
pub open spec fn showmatch_word() -> Seq<char> {
    seq!['s', 'h', 'o', 'w', 'm', 'a', 't', 'c', 'h']
}

/// The characters of `s`, in order.
fn chars_of(s: &str) -> (r: Vec<char>)
    ensures
        r@ == s@,
{
    let mut out: Vec<char> = Vec::new();
    for c in it: s.chars()
        invariant
            out@ == it.seq().take(it.index() as int),
    {
        out.push(c);
    }
    assert(out@ =~= s@);
    out
}

/// Whether `pat` occurs in `hay` at position `i`.
fn matches_at(hay: &Vec<char>, pat: &Vec<char>, i: usize) -> (r: bool)
    ensures
        r == occurs_at(hay@, pat@, i as int),
{
    if i > hay.len() || pat.len() > hay.len() - i {
        return false;
    }
    let mut j: usize = 0;
    while j < pat.len()
        invariant
            i + pat@.len() <= hay@.len(),
            hay@.len() <= usize::MAX,
            0 <= j <= pat@.len(),
            forall|k: int| 0 <= k < j ==> hay@[i + k] == pat@[k],
        decreases pat@.len() - j,
    {
        if hay[i + j] != pat[j] {
            assert(hay@.subrange(i as int, i + pat@.len())[j as int] != pat@[j as int]);
            return false;
        }
        j += 1;
    }
    assert(hay@.subrange(i as int, i + pat@.len()) =~= pat@);
    true
}

/// Whether an already lower-cased event name contains the word "showmatch".
pub fn mentions_showmatch(lowered: &str) -> (r: bool)
    ensures
        r == has_infix(lowered@, showmatch_word()),
{
    let hay = chars_of(lowered);
    let pat: Vec<char> = vec!['s', 'h', 'o', 'w', 'm', 'a', 't', 'c', 'h'];
    assert(pat@ =~= showmatch_word());
    let n = hay.len();
    if n < 9 {
        assert forall|k: int| !occurs_at(hay@, pat@, k) by {}
        return false;
    }
    let last = n - 9;
    let mut i: usize = 0;
    while i <= last
        invariant
            hay@ == lowered@,
            pat@ == showmatch_word(),
            n == hay@.len(),
            last + 9 == n,
            0 <= i <= last + 1,
            forall|k: int| 0 <= k < i ==> !occurs_at(hay@, pat@, k),
        decreases last + 1 - i,
    {
        if matches_at(&hay, &pat, i) {
            return true;
        }
        i += 1;
    }
    assert forall|k: int| !occurs_at(hay@, pat@, k) by {
        if 0 <= k && k + pat@.len() <= hay@.len() {
            assert(k < i);
        }
    }
    false
}

/// Whether an event's name marks it as an exhibition: the word "showmatch"
/// in any letter case.
pub fn is_showmatch(name: &str) -> (r: bool)
    ensures
        r == has_infix(lower_of(name@), showmatch_word()),
{
    let lowered = lowercase(name);
    mentions_showmatch(lowered.as_str())
}

} // verus!
