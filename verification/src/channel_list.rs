use vstd::prelude::*;
use vstd::slice::slice_to_vec;

verus! {

/// ASCII whitespace: what is trimmed from each entry of a
/// comma-separated channel list.
pub open spec fn is_ascii_ws(b: u8) -> bool {
    b == 32 || b == 9 || b == 10 || b == 13
}

pub open spec fn spec_trim_start(s: Seq<u8>) -> Seq<u8>
    decreases s.len(),
{
    if s.len() > 0 && is_ascii_ws(s[0]) {
        spec_trim_start(s.drop_first())
    } else {
        s
    }
}

pub open spec fn spec_trim_end(s: Seq<u8>) -> Seq<u8>
    decreases s.len(),
{
    if s.len() > 0 && is_ascii_ws(s.last()) {
        spec_trim_end(s.drop_last())
    } else {
        s
    }
}

/// The bytes of `s` with leading and trailing ASCII whitespace
/// removed.
pub open spec fn spec_trim(s: Seq<u8>) -> Seq<u8> {
    spec_trim_end(spec_trim_start(s))
}

proof fn lemma_trim_start_at(s: Seq<u8>, i: int)
    requires
        0 <= i <= s.len(),
        forall|k: int| 0 <= k < i ==> is_ascii_ws(s[k]),
        i < s.len() ==> !is_ascii_ws(s[i]),
    ensures
        spec_trim_start(s) == s.skip(i),
    decreases i,
{
    if i == 0 {
        assert(s.skip(0) =~= s);
    } else {
        let t = s.drop_first();
        assert(forall|k: int| 0 <= k < i - 1 ==> is_ascii_ws(#[trigger] t[k]));
        assert(i - 1 < t.len() ==> !is_ascii_ws(t[i - 1]));
        lemma_trim_start_at(t, i - 1);
        assert(t.skip(i - 1) =~= s.skip(i));
    }
}

proof fn lemma_trim_end_at(s: Seq<u8>, j: int)
    requires
        0 <= j <= s.len(),
        forall|k: int| j <= k < s.len() ==> is_ascii_ws(s[k]),
        j > 0 ==> !is_ascii_ws(s[j - 1]),
    ensures
        spec_trim_end(s) == s.take(j),
    decreases s.len() - j,
{
    if j == s.len() {
        if j > 0 {
        }
        assert(s.take(j) =~= s);
    } else {
        let t = s.drop_last();
        assert(forall|k: int| j <= k < t.len() ==> is_ascii_ws(#[trigger] t[k]));
        lemma_trim_end_at(t, j);
        assert(t.take(j) =~= s.take(j));
    }
}

fn is_ws_byte(b: u8) -> (r: bool)
    ensures
        r == is_ascii_ws(b),
{
    b == 32 || b == 9 || b == 10 || b == 13
}

/// Remove leading and trailing ASCII whitespace from a byte slice.
pub fn trim_bytes(s: &[u8]) -> (r: Vec<u8>)
    ensures
        r@ == spec_trim(s@),
{
    let mut lo: usize = 0;
    while lo < s.len() && is_ws_byte(s[lo])
        invariant
            lo <= s@.len(),
            forall|k: int| 0 <= k < lo ==> is_ascii_ws(s@[k]),
        decreases s@.len() - lo,
    {
        lo = lo + 1;
    }
    let mut hi: usize = s.len();
    while hi > lo && is_ws_byte(s[hi - 1])
        invariant
            lo <= hi <= s@.len(),
            forall|k: int| hi <= k < s@.len() ==> is_ascii_ws(s@[k]),
        decreases hi,
    {
        hi = hi - 1;
    }
    let r = slice_to_vec(&s[lo..hi]);
    proof {
        lemma_trim_start_at(s@, lo as int);
        let t = s@.skip(lo as int);
        assert(forall|k: int| hi - lo <= k < t.len() ==> is_ascii_ws(#[trigger] t[k]));
        lemma_trim_end_at(t, hi - lo);
        assert(t.take(hi - lo) =~= s@.subrange(lo as int, hi as int));
    }
    r
}

/// The number of bytes before the first comma of `s` (all of `s` if
/// it has none).
pub open spec fn split_head_len(s: Seq<u8>) -> nat
    decreases s.len(),
{
    if s.len() == 0 || s[0] == 44 {
        0
    } else {
        1 + split_head_len(s.drop_first())
    }
}

/// The entries of a comma-separated list: split at every comma, each
/// piece trimmed of ASCII whitespace. Empty pieces are kept, as an
/// empty list yields one empty entry.
pub open spec fn spec_split_channels(s: Seq<u8>) -> Seq<Seq<u8>>
    decreases s.len(),
{
    let h = split_head_len(s) as int;
    if h >= s.len() {
        seq![spec_trim(s)]
    } else {
        seq![spec_trim(s.take(h))] + spec_split_channels(s.skip(h + 1))
    }
}

proof fn lemma_split_head_len_at(s: Seq<u8>, c: int)
    requires
        0 <= c <= s.len(),
        forall|k: int| 0 <= k < c ==> s[k] != 44,
        c < s.len() ==> s[c] == 44,
    ensures
        split_head_len(s) == c,
    decreases c,
{
    if c == 0 {
    } else {
        let t = s.drop_first();
        assert(forall|k: int| 0 <= k < c - 1 ==> #[trigger] t[k] != 44);
        assert(c - 1 < t.len() ==> t[c - 1] == 44);
        lemma_split_head_len_at(t, c - 1);
    }
}

/// Split a comma-separated channel list into its trimmed entries.
pub fn split_channels(s: &[u8]) -> (r: Vec<Vec<u8>>)
    ensures
        r@.map_values(|v: Vec<u8>| v@) == spec_split_channels(s@),
{
    let ghost whole = spec_split_channels(s@);
    let mut r: Vec<Vec<u8>> = Vec::new();
    let mut start: usize = 0;
    let mut i: usize = 0;
    proof {
        assert(s@.skip(0) =~= s@);
        assert(r@.map_values(|v: Vec<u8>| v@) =~= Seq::<Seq<u8>>::empty());
        assert(Seq::<Seq<u8>>::empty() + whole =~= whole);
    }
    while i < s.len()
        invariant
            start <= i <= s@.len(),
            forall|k: int| start <= k < i ==> s@[k] != 44,
            whole == spec_split_channels(s@),
            whole == r@.map_values(|v: Vec<u8>| v@) + spec_split_channels(s@.skip(start as int)),
        decreases s@.len() - i,
    {
        if s[i] == 44 {
            let piece = trim_bytes(&s[start..i]);
            proof {
                let t = s@.skip(start as int);
                assert(forall|k: int| 0 <= k < i - start ==> #[trigger] t[k] != 44);
                lemma_split_head_len_at(t, i - start);
                assert(t.take(i - start) =~= s@.subrange(start as int, i as int));
                assert(t.skip(i - start + 1) =~= s@.skip(i + 1));
                assert((r@.push(piece)).map_values(|v: Vec<u8>| v@) =~= r@.map_values(
                    |v: Vec<u8>| v@,
                ).push(piece@));
            }
            r.push(piece);
            start = i + 1;
        }
        i = i + 1;
    }
    let piece = trim_bytes(&s[start..s.len()]);
    proof {
        let t = s@.skip(start as int);
        assert(forall|k: int| 0 <= k < t.len() ==> #[trigger] t[k] != 44);
        lemma_split_head_len_at(t, t.len() as int);
        assert(t =~= s@.subrange(start as int, s@.len() as int));
        assert((r@.push(piece)).map_values(|v: Vec<u8>| v@) =~= r@.map_values(
            |v: Vec<u8>| v@,
        ).push(piece@));
        assert(r@.map_values(|v: Vec<u8>| v@) + spec_split_channels(t) =~= (r@.push(
            piece,
        )).map_values(|v: Vec<u8>| v@));
    }
    r.push(piece);
    r
}

} // verus!
