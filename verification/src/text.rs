//! Text helpers shared by the labels, descriptions and identifiers of the library.
use vstd::prelude::*;

verus! {

/// The character sequences of a list of strings.
pub open spec fn views_of(v: Seq<String>) -> Seq<Seq<char>> {
    v.map_values(|s: String| s@)
}

/// `parts` joined with `sep` between neighbours (what `[String]::join` produces).
pub open spec fn joined(parts: Seq<Seq<char>>, sep: Seq<char>) -> Seq<char>
    decreases parts.len(),
{
    if parts.len() == 0 {
        Seq::empty()
    } else if parts.len() == 1 {
        parts[0]
    } else {
        joined(parts.drop_last(), sep) + sep + parts.last()
    }
}

/// Joins `parts` with `sep` between neighbours.
pub fn join(parts: &Vec<String>, sep: &str) -> (r: String)
    ensures
        r@ == joined(views_of(parts@), sep@),
{
    let mut r = String::new();
    let ghost all = views_of(parts@);
    let n = parts.len();
    let mut i: usize = 0;
    while i < n
        invariant
            n == parts@.len(),
            all == views_of(parts@),
            i <= n,
            r@ == joined(all.take(i as int), sep@),
        decreases n - i,
    {
        if i != 0 {
            r.append(sep);
        }
        r.append(parts[i].as_str());
        assert(all.take(i + 1).drop_last() =~= all.take(i as int));
        i = i + 1;
    }
    assert(all.take(n as int) =~= all);
    r
}

/// Whether two string slices hold the same characters.
#[verifier::external_body]
pub fn str_eq(a: &str, b: &str) -> (r: bool)
    ensures
        r == (a@ == b@),
{
    a == b
}

/// A copy of a list of strings.
pub fn clone_strings(v: &Vec<String>) -> (r: Vec<String>)
    ensures
        views_of(r@) == views_of(v@),
{
    let mut r: Vec<String> = Vec::new();
    let n = v.len();
    let mut i: usize = 0;
    while i < n
        invariant
            n == v@.len(),
            i <= n,
            views_of(r@) == views_of(v@).take(i as int),
        decreases n - i,
    {
        let ghost prev = views_of(r@);
        r.push(v[i].clone());
        assert(views_of(r@) =~= prev.push(v@[i as int]@));
        assert(views_of(v@).take(i + 1) =~= views_of(v@).take(i as int).push(v@[i as int]@));
        i = i + 1;
    }
    assert(views_of(v@).take(n as int) =~= views_of(v@));
    r
}

/// A copy of an optional string.
pub fn clone_opt(o: &Option<String>) -> (r: Option<String>)
    ensures
        match (r, *o) {
            (Some(a), Some(b)) => a@ == b@,
            (None, None) => true,
            _ => false,
        },
{
    match o {
        Some(s) => Some(s.clone()),
        None => None,
    }
}

/// Whether two lists of strings are equal, element by element.
pub fn strings_eq(a: &Vec<String>, b: &Vec<String>) -> (r: bool)
    ensures
        r == (views_of(a@) == views_of(b@)),
{
    if a.len() != b.len() {
        assert(views_of(a@).len() != views_of(b@).len());
        return false;
    }
    let n = a.len();
    let mut i: usize = 0;
    while i < n
        invariant
            n == a@.len(),
            n == b@.len(),
            i <= n,
            forall|j: int| 0 <= j < i ==> (#[trigger] a@[j])@ == b@[j]@,
        decreases n - i,
    {
        if a[i] != b[i] {
            assert(views_of(a@)[i as int] != views_of(b@)[i as int]);
            return false;
        }
        i = i + 1;
    }
    assert(views_of(a@) =~= views_of(b@));
    true
}


/// The characters of `s` with every space turned into a hyphen.
pub open spec fn dashed(s: Seq<char>) -> Seq<char> {
    s.map_values(|c: char| if c == ' ' { '-' } else { c })
}

/// The lowercase form of a string, as Unicode defines it (`str::to_lowercase`).
pub uninterp spec fn lowercase(s: Seq<char>) -> Seq<char>;

/// Calls `str::to_lowercase`; the result is named [`lowercase`] of the input's characters,
/// since Unicode's lowercase mapping takes tables to state.
#[verifier::external_body]
pub fn to_lowercase(s: &str) -> (r: String)
    ensures
        r@ == lowercase(s@),
{
    s.to_lowercase()
}

/// Calls `String::push`, which appends one character.
#[verifier::external_body]
fn push_char(s: &mut String, c: char)
    ensures
        final(s)@ == old(s)@.push(c),
{
    s.push(c)
}

/// Appends `s` to `out` with every space turned into a hyphen.
pub fn append_dashed(out: &mut String, s: &str)
    ensures
        final(out)@ == old(out)@ + dashed(s@),
{
    broadcast use vstd::string::group_string_axioms;
    let ghost start = out@;
    for c in it: s.chars()
        invariant
            start == old(out)@,
            it.seq() == s@,
            out@ == start + dashed(s@.take(it.index() as int)),
    {
        if c == ' ' {
            push_char(out, '-');
        } else {
            push_char(out, c);
        }
        assert(dashed(s@.take(it.index() + 1)) =~= dashed(s@.take(it.index() as int)).push(
            if c == ' ' { '-' } else { c },
        ));
    }
    assert(s@.take(s@.len() as int) =~= s@);
}

/// Joining one more item appends the separator and the item, except to nothing, where the
/// item stands alone.
pub proof fn lemma_joined_push(parts: Seq<Seq<char>>, sep: Seq<char>, x: Seq<char>)
    ensures
        joined(parts.push(x), sep) == if parts.len() == 0 {
            x
        } else {
            joined(parts, sep) + sep + x
        },
{
    assert(parts.push(x).drop_last() =~= parts);
}

/// Turning spaces into hyphens keeps the length, leaves no space, and keeps every other
/// character where it was.
pub proof fn lemma_dashed_chars(s: Seq<char>)
    ensures
        dashed(s).len() == s.len(),
        forall|i: int| 0 <= i < s.len() ==> #[trigger] dashed(s)[i] != ' ',
        forall|i: int| 0 <= i < s.len() && s[i] != ' ' ==> #[trigger] dashed(s)[i] == s[i],
        forall|i: int| 0 <= i < s.len() && s[i] == ' ' ==> #[trigger] dashed(s)[i] == '-',
{
}

} // verus!
