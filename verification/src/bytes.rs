//! Small verified helpers over byte vectors.
use vstd::prelude::*;
use vstd::slice::slice_subrange;
use vstd::slice::slice_to_vec;

verus! {

/// A fresh vector holding `v[start..end]`.
pub fn vec_range(v: &Vec<u8>, start: usize, end: usize) -> (r: Vec<u8>)
    requires
        start <= end <= v@.len(),
    ensures
        r@ == v@.subrange(start as int, end as int),
{
    slice_to_vec(slice_subrange(v.as_slice(), start, end))
}

} // verus!

verus! {

/// The decimal digits of `n`, most significant first, as ASCII octets.
pub open spec fn spec_dec(n: nat) -> Seq<u8>
    decreases n,
{
    if n < 10 {
        seq![(48 + n) as u8]
    } else {
        spec_dec(n / 10).push((48 + n % 10) as u8)
    }
}

/// `n` written in decimal ASCII.
pub fn u64_to_dec(n: u64) -> (r: Vec<u8>)
    ensures
        r@ == spec_dec(n as nat),
    decreases n,
{
    if n < 10 {
        let mut v: Vec<u8> = Vec::new();
        v.push(48 + n as u8);
        proof {
            assert(v@ =~= spec_dec(n as nat));
        }
        v
    } else {
        let mut v = u64_to_dec(n / 10);
        v.push(48 + (n % 10) as u8);
        proof {
            assert(v@ =~= spec_dec(n as nat));
        }
        v
    }
}

/// The octets that header-line trimming removes: space, tab, CR, LF.
pub open spec fn is_ws(b: u8) -> bool {
    b == 32 || b == 9 || b == 13 || b == 10
}

/// The sequence with its leading trimmable octets removed.
pub open spec fn spec_trim_start(s: Seq<u8>) -> Seq<u8>
    decreases s.len(),
{
    if s.len() > 0 && is_ws(s[0]) {
        spec_trim_start(s.drop_first())
    } else {
        s
    }
}

/// The sequence with its trailing trimmable octets removed.
pub open spec fn spec_trim_end(s: Seq<u8>) -> Seq<u8>
    decreases s.len(),
{
    if s.len() > 0 && is_ws(s.last()) {
        spec_trim_end(s.drop_last())
    } else {
        s
    }
}

/// The sequence trimmed on both sides.
pub open spec fn spec_trim(s: Seq<u8>) -> Seq<u8> {
    spec_trim_end(spec_trim_start(s))
}

proof fn lemma_trim_start_skip(s: Seq<u8>, i: int)
    requires
        0 <= i <= s.len(),
        forall|j: int| 0 <= j < i ==> is_ws(s[j]),
    ensures
        spec_trim_start(s) == spec_trim_start(s.subrange(i, s.len() as int)),
    decreases i,
{
    if i == 0 {
        assert(s.subrange(0, s.len() as int) =~= s);
    } else {
        assert(is_ws(s[0]));
        let t = s.drop_first();
        lemma_trim_start_skip(t, i - 1);
        assert(t.subrange(i - 1, t.len() as int) =~= s.subrange(i, s.len() as int));
    }
}

proof fn lemma_trim_end_skip(s: Seq<u8>, k: int)
    requires
        0 <= k <= s.len(),
        forall|j: int| k <= j < s.len() ==> is_ws(s[j]),
    ensures
        spec_trim_end(s) == spec_trim_end(s.subrange(0, k)),
    decreases s.len() - k,
{
    if k == s.len() {
        assert(s.subrange(0, k) =~= s);
    } else {
        assert(is_ws(s.last()));
        let t = s.drop_last();
        lemma_trim_end_skip(t, k);
        assert(t.subrange(0, k) =~= s.subrange(0, k));
    }
}

/// A fresh vector holding the octets of `v` with the trimmable octets
/// removed from both ends.
pub fn trim(v: &Vec<u8>) -> (r: Vec<u8>)
    ensures
        r@ == spec_trim(v@),
{
    let len: usize = v.len();
    let mut start: usize = 0;
    while start < len && (v[start] == 32 || v[start] == 9 || v[start] == 13 || v[start] == 10)
        invariant
            start <= len,
            len == v@.len(),
            forall|j: int| 0 <= j < start ==> is_ws(v@[j]),
        decreases len - start,
    {
        start = start + 1;
    }
    let mut end: usize = len;
    while end > start && (v[end - 1] == 32 || v[end - 1] == 9 || v[end - 1] == 13 || v[end - 1]
        == 10)
        invariant
            start <= end <= len,
            len == v@.len(),
            forall|j: int| end <= j < len ==> is_ws(v@[j]),
        decreases end,
    {
        end = end - 1;
    }
    proof {
        lemma_trim_start_skip(v@, start as int);
        let t = v@.subrange(start as int, len as int);
        assert(spec_trim_start(t) == t);
        lemma_trim_end_skip(t, end - start);
        assert(t.subrange(0, end - start) =~= v@.subrange(start as int, end as int));
        let u = v@.subrange(start as int, end as int);
        assert(spec_trim_end(u) == u);
    }
    vec_range(v, start, end)
}

/// The first index at or after `from` holding `b`.
pub open spec fn find_byte(s: Seq<u8>, b: u8, from: int) -> Option<int>
    decreases s.len() - from,
{
    if from < 0 || from >= s.len() {
        None
    } else if s[from] == b {
        Some(from)
    } else {
        find_byte(s, b, from + 1)
    }
}

/// Searches `v` for `b`, starting at `from`.
pub fn find_byte_exec(v: &Vec<u8>, b: u8, from: usize) -> (r: Option<usize>)
    ensures
        match r {
            Some(i) => find_byte(v@, b, from as int) == Some(i as int) && from <= i < v@.len(),
            None => find_byte(v@, b, from as int) is None,
        },
    decreases v@.len() - from,
{
    if from >= v.len() {
        None
    } else if v[from] == b {
        Some(from)
    } else {
        match find_byte_exec(v, b, from + 1) {
            Some(i) => Some(i),
            None => None,
        }
    }
}

/// Whether every octet is a decimal digit.
pub open spec fn all_digits(s: Seq<u8>) -> bool {
    forall|i: int| 0 <= i < s.len() ==> 48 <= #[trigger] s[i] <= 57
}

/// The number a sequence of decimal ASCII digits denotes.
pub open spec fn spec_dec_val(s: Seq<u8>) -> nat
    decreases s.len(),
{
    if s.len() == 0 {
        0
    } else {
        spec_dec_val(s.drop_last()) * 10 + (s.last() - 48) as nat
    }
}

proof fn lemma_dec_val_prefix(s: Seq<u8>, k: int)
    requires
        0 <= k <= s.len(),
        all_digits(s),
    ensures
        spec_dec_val(s) >= spec_dec_val(s.subrange(0, k)),
    decreases s.len() - k,
{
    if k < s.len() {
        let t = s.drop_last();
        assert(all_digits(t));
        lemma_dec_val_prefix(t, k);
        assert(t.subrange(0, k) =~= s.subrange(0, k));
        assert(spec_dec_val(s) >= spec_dec_val(t));
    } else {
        assert(s.subrange(0, k) =~= s);
    }
}

/// Parses a decimal token into a 16-bit number: `Some` exactly when the
/// token is nonempty, all digits, and its value fits.
pub fn parse_dec_u16(token: &Vec<u8>) -> (r: Option<u16>)
    ensures
        r == if token@.len() >= 1 && all_digits(token@) && spec_dec_val(token@) <= 65535 {
            Some(spec_dec_val(token@) as u16)
        } else {
            None::<u16>
        },
{
    let len: usize = token.len();
    if len == 0 {
        return None;
    }
    let mut acc: u32 = 0;
    let mut i: usize = 0;
    while i < len
        invariant
            i <= len,
            len == token@.len(),
            acc <= 65535,
            acc == spec_dec_val(token@.subrange(0, i as int)),
            forall|j: int| 0 <= j < i ==> 48 <= #[trigger] token@[j] <= 57,
        decreases len - i,
    {
        let b: u8 = token[i];
        if b < 48 || b > 57 {
            proof {
                assert(!all_digits(token@));
            }
            return None;
        }
        acc = acc * 10 + ((b - 48) as u32);
        proof {
            assert(token@.subrange(0, i as int + 1).drop_last() =~= token@.subrange(0, i as int));
            assert(token@.subrange(0, i as int + 1).last() == token@[i as int]);
        }
        if acc > 65535 {
            proof {
                if all_digits(token@) {
                    lemma_dec_val_prefix(token@, i as int + 1);
                }
            }
            return None;
        }
        i = i + 1;
    }
    proof {
        assert(token@.subrange(0, len as int) =~= token@);
    }
    Some(acc as u16)
}

} // verus!
