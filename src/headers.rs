use vstd::prelude::*;

verus! {

/// One HTTP header line: a name and a value, stored as given.
pub struct Header {
    pub name: String,
    pub value: String,
}

/// The abstract value of a header: its name and its value as character sequences.
pub type HeaderPair = (Seq<char>, Seq<char>);

impl Header {
    pub fn new(name: &str, value: &str) -> (r: Header)
        ensures
            r.name@ == name@,
            r.value@ == value@,
    {
        Header { name: name.to_owned(), value: value.to_owned() }
    }

    /// A copy of this header with the same name and value.
    pub fn duplicate(&self) -> (r: Header)
        ensures
            r == *self,
    {
        Header { name: self.name.clone(), value: self.value.clone() }
    }
}

pub open spec fn pair_of(h: Header) -> HeaderPair {
    (h.name@, h.value@)
}

/// The abstract view of a list of headers, in order.
pub open spec fn header_pairs(hs: Seq<Header>) -> Seq<HeaderPair> {
    hs.map_values(|h: Header| pair_of(h))
}

/// ASCII lower-case folding of one character, as a code point.
pub open spec fn folded(c: char) -> u32 {
    if 'A' <= c && c <= 'Z' {
        (c as u32 + 32) as u32
    } else {
        c as u32
    }
}

/// Two header names are the same name when they agree up to ASCII case.
pub open spec fn name_eq(a: Seq<char>, b: Seq<char>) -> bool {
    a.len() == b.len() && forall|i: int| 0 <= i < a.len() ==> #[trigger] folded(a[i]) == folded(b[i])
}

/// The headers of `hs`, in order, but for those named `n` (ignoring ASCII case).
pub open spec fn without_name(hs: Seq<HeaderPair>, n: Seq<char>) -> Seq<HeaderPair>
    decreases hs.len(),
{
    if hs.len() == 0 {
        hs
    } else {
        let rest = without_name(hs.drop_last(), n);
        if name_eq(hs.last().0, n) {
            rest
        } else {
            rest.push(hs.last())
        }
    }
}

/// Setting a header replaces every header of the same name by a single one, placed last.
pub open spec fn set_header(hs: Seq<HeaderPair>, h: HeaderPair) -> Seq<HeaderPair> {
    without_name(hs, h.0).push(h)
}

/// Setting each header of `extra`, in order.
pub open spec fn set_all(hs: Seq<HeaderPair>, extra: Seq<HeaderPair>) -> Seq<HeaderPair>
    decreases extra.len(),
{
    if extra.len() == 0 {
        hs
    } else {
        set_header(set_all(hs, extra.drop_last()), extra.last())
    }
}

/// `hs` holds the header `(n, v)`, and no other header named `n`.
pub open spec fn holds_only(hs: Seq<HeaderPair>, n: Seq<char>, v: Seq<char>) -> bool {
    &&& hs.contains((n, v))
    &&& forall|i: int| 0 <= i < hs.len() && name_eq(#[trigger] hs[i].0, n) ==> hs[i] == (n, v)
}

/// Compares two header names, ignoring ASCII case.
pub fn same_name(a: &str, b: &str) -> (r: bool)
    ensures
        r == name_eq(a@, b@),
{
    let la = a.unicode_len();
    let lb = b.unicode_len();
    if la != lb {
        return false;
    }
    let mut i: usize = 0;
    while i < la
        invariant
            la == a@.len(),
            lb == b@.len(),
            la == lb,
            i <= la,
            forall|j: int| 0 <= j < i ==> #[trigger] folded(a@[j]) == folded(b@[j]),
        decreases la - i,
    {
        let ca = a.get_char(i);
        let cb = b.get_char(i);
        let fa: u32 = if 'A' <= ca && ca <= 'Z' { ca as u32 + 32 } else { ca as u32 };
        let fb: u32 = if 'A' <= cb && cb <= 'Z' { cb as u32 + 32 } else { cb as u32 };
        if fa != fb {
            assert(folded(a@[i as int]) != folded(b@[i as int]));
            return false;
        }
        i = i + 1;
    }
    true
}

proof fn lemma_pairs_prefix(hs: Seq<Header>, i: int)
    requires
        0 <= i < hs.len(),
    ensures
        header_pairs(hs).subrange(0, i + 1).drop_last() == header_pairs(hs).subrange(0, i),
        header_pairs(hs).subrange(0, i + 1).last() == pair_of(hs[i]),
{
    assert(header_pairs(hs).subrange(0, i + 1).drop_last() =~= header_pairs(hs).subrange(0, i));
}

/// A copy of `hs` without the headers named `n` (ignoring ASCII case).
pub fn remove_named(hs: &Vec<Header>, n: &str) -> (r: Vec<Header>)
    ensures
        header_pairs(r@) == without_name(header_pairs(hs@), n@),
{
    let mut out: Vec<Header> = Vec::new();
    let mut i: usize = 0;
    while i < hs.len()
        invariant
            i <= hs.len(),
            header_pairs(out@) == without_name(header_pairs(hs@).subrange(0, i as int), n@),
        decreases hs.len() - i,
    {
        proof {
            lemma_pairs_prefix(hs@, i as int);
        }
        let keep = !same_name(hs[i].name.as_str(), n);
        if keep {
            let h = hs[i].duplicate();
            let ghost before = out@;
            out.push(h);
            assert(header_pairs(out@) =~= header_pairs(before).push(pair_of(h)));
        }
        i = i + 1;
    }
    assert(header_pairs(hs@).subrange(0, hs.len() as int) =~= header_pairs(hs@));
    out
}

/// Sets header `h` on `hs`: every header of the same name goes, and `h` is appended.
pub fn put_header(hs: &mut Vec<Header>, h: Header)
    ensures
        header_pairs(final(hs)@) == set_header(header_pairs(old(hs)@), pair_of(h)),
{
    let mut kept = remove_named(hs, h.name.as_str());
    let ghost before = kept@;
    kept.push(h);
    assert(header_pairs(kept@) =~= header_pairs(before).push(pair_of(h)));
    *hs = kept;
}

} // verus!
