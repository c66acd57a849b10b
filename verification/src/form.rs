//! URL-encoded forms: `name=value` pairs joined by `&`, where `+` stands for
//! a space and `%` followed by two hexadecimal digits for any byte.

use vstd::prelude::*;

verus! {

pub const AMPERSAND: u8 = 0x26;

pub const EQUALS: u8 = 0x3d;

pub const PERCENT: u8 = 0x25;

pub const PLUS_SIGN: u8 = 0x2b;

pub const SPACE: u8 = 0x20;

/// One decoded pair of a form.
pub struct Pair {
    pub name: Vec<u8>,
    pub value: Vec<u8>,
}

pub ghost struct PairView {
    pub name: Seq<u8>,
    pub value: Seq<u8>,
}

impl View for Pair {
    type V = PairView;

    open spec fn view(&self) -> PairView {
        PairView { name: self.name@, value: self.value@ }
    }
}

pub open spec fn pairs_view(pairs: Seq<Pair>) -> Seq<PairView> {
    Seq::new(pairs.len(), |i: int| pairs[i]@)
}

pub open spec fn is_hex(b: u8) -> bool {
    (0x30 <= b <= 0x39) || (0x41 <= b <= 0x46) || (0x61 <= b <= 0x66)
}

pub open spec fn hex_value(b: u8) -> int {
    if 0x30 <= b <= 0x39 {
        b - 0x30
    } else if 0x41 <= b <= 0x46 {
        b - 0x41 + 10
    } else {
        b - 0x61 + 10
    }
}

/// The bytes that escaped text stands for. A `%` that two hexadecimal digits
/// do not follow stands for itself.
pub open spec fn unescape(s: Seq<u8>) -> Seq<u8>
    decreases s.len(),
{
    if s.len() == 0 {
        Seq::empty()
    } else if s[0] == PERCENT && s.len() >= 3 && is_hex(s[1]) && is_hex(s[2]) {
        seq![(16 * hex_value(s[1]) + hex_value(s[2])) as u8] + unescape(s.skip(3))
    } else if s[0] == PLUS_SIGN {
        seq![SPACE] + unescape(s.skip(1))
    } else {
        seq![s[0]] + unescape(s.skip(1))
    }
}

/// Where `b` first occurs in `s`, or the length of `s` if it does not occur.
pub open spec fn first_index(s: Seq<u8>, b: u8) -> int
    decreases s.len(),
{
    if s.len() == 0 || s[0] == b {
        0
    } else {
        1 + first_index(s.skip(1), b)
    }
}

/// The pair that one segment of a form holds: the name up to the first `=`,
/// the value after it. A segment without `=` is a name with an empty value.
pub open spec fn pair_of(segment: Seq<u8>) -> PairView {
    let i = first_index(segment, EQUALS);
    PairView {
        name: unescape(segment.take(i)),
        value: if 0 <= i < segment.len() {
            unescape(segment.skip(i + 1))
        } else {
            Seq::empty()
        },
    }
}

/// The pairs of a form, in the order in which they are written. Empty
/// segments, as between `&&`, hold no pair.
pub open spec fn pairs_of(s: Seq<u8>) -> Seq<PairView>
    decreases s.len(),
{
    if s.len() == 0 {
        Seq::empty()
    } else {
        let i = first_index(s, AMPERSAND);
        let head = if i == 0 {
            Seq::empty()
        } else {
            seq![pair_of(s.take(i))]
        };
        let rest = if 0 <= i < s.len() {
            s.skip(i + 1)
        } else {
            Seq::empty()
        };
        head + pairs_of(rest)
    }
}

/// The value of the last pair named `key`: where a name repeats, the last
/// value wins.
pub open spec fn last_value(pairs: Seq<PairView>, key: Seq<u8>) -> Option<Seq<u8>>
    decreases pairs.len(),
{
    if pairs.len() == 0 {
        None
    } else if pairs.last().name == key {
        Some(pairs.last().value)
    } else {
        last_value(pairs.drop_last(), key)
    }
}

/// The value that a form gives to `key`.
pub open spec fn field(form: Seq<u8>, key: Seq<u8>) -> Option<Seq<u8>> {
    last_value(pairs_of(form), key)
}

/// `first_index` is the one position before which `b` does not occur and at
/// which it does, or the end.
pub proof fn lemma_first_index(s: Seq<u8>, b: u8, k: int)
    requires
        0 <= k <= s.len(),
        forall|j: int| 0 <= j < k ==> s[j] != b,
        k < s.len() ==> s[k] == b,
    ensures
        first_index(s, b) == k,
    decreases k,
{
    if k > 0 {
        let t = s.skip(1);
        assert forall|j: int| 0 <= j < k - 1 implies t[j] != b by {
            assert(t[j] == s[j + 1]);
        }
        lemma_first_index(t, b, k - 1);
    }
}

/// `first_index` lies within `s`; `b` does not occur before it, and occurs at
/// it unless it is the end.
pub proof fn lemma_first_index_is_first(s: Seq<u8>, b: u8)
    ensures
        0 <= first_index(s, b) <= s.len(),
        forall|j: int| 0 <= j < first_index(s, b) ==> s[j] != b,
        first_index(s, b) < s.len() ==> s[first_index(s, b)] == b,
    decreases s.len(),
{
    if s.len() > 0 && s[0] != b {
        let t = s.skip(1);
        lemma_first_index_is_first(t, b);
        assert forall|j: int| 0 <= j < first_index(s, b) implies s[j] != b by {
            if j > 0 {
                assert(s[j] == t[j - 1]);
            }
        }
    }
}

/// Text without `%` and `+` stands for itself.
pub proof fn lemma_unescape_plain(s: Seq<u8>)
    requires
        forall|j: int| 0 <= j < s.len() ==> s[j] != PERCENT && s[j] != PLUS_SIGN,
    ensures
        unescape(s) == s,
    decreases s.len(),
{
    if s.len() > 0 {
        lemma_unescape_plain(s.skip(1));
        assert(seq![s[0]] + s.skip(1) =~= s);
    }
}

/// A name without `=`, then `=` and a value, is the pair of that name and
/// that value, each unescaped.
pub proof fn lemma_pair_of_joined(name: Seq<u8>, value: Seq<u8>)
    requires
        forall|j: int| 0 <= j < name.len() ==> name[j] != EQUALS,
    ensures
        pair_of(name + seq![EQUALS] + value) == (PairView {
            name: unescape(name),
            value: unescape(value),
        }),
{
    let segment = name + seq![EQUALS] + value;
    lemma_first_index(segment, EQUALS, name.len() as int);
    assert(segment.take(name.len() as int) =~= name);
    assert(segment.skip(name.len() as int + 1) =~= value);
}

/// A segment that is not empty and holds no `&` is a form of one pair.
pub proof fn lemma_pairs_of_segment(segment: Seq<u8>)
    requires
        segment.len() > 0,
        forall|j: int| 0 <= j < segment.len() ==> segment[j] != AMPERSAND,
    ensures
        pairs_of(segment) == seq![pair_of(segment)],
{
    lemma_first_index(segment, AMPERSAND, segment.len() as int);
    assert(segment.take(segment.len() as int) =~= segment);
    assert(pairs_of(Seq::<u8>::empty()) =~= Seq::<PairView>::empty());
    assert(seq![pair_of(segment)] + Seq::<PairView>::empty() =~= seq![pair_of(segment)]);
}

/// Two forms joined by `&` hold the pairs of the first, then those of the
/// second.
pub proof fn lemma_pairs_of_joined(a: Seq<u8>, b: Seq<u8>)
    ensures
        pairs_of(a + seq![AMPERSAND] + b) == pairs_of(a) + pairs_of(b),
    decreases a.len(),
{
    let joined = a + seq![AMPERSAND] + b;
    let i = first_index(a, AMPERSAND);
    lemma_first_index_is_first(a, AMPERSAND);
    lemma_first_index(joined, AMPERSAND, i);
    assert(joined.take(i) =~= a.take(i));
    let head = if i == 0 {
        Seq::<PairView>::empty()
    } else {
        seq![pair_of(a.take(i))]
    };
    if i == a.len() {
        assert(joined.skip(i + 1) =~= b);
        assert(pairs_of(joined) == head + pairs_of(b));
        if a.len() > 0 {
            assert(pairs_of(Seq::<u8>::empty()) =~= Seq::<PairView>::empty());
            assert(pairs_of(a) =~= head);
        } else {
            assert(pairs_of(a) =~= head);
        }
    } else {
        let rest = a.skip(i + 1);
        assert(joined.skip(i + 1) =~= rest + seq![AMPERSAND] + b);
        lemma_pairs_of_joined(rest, b);
        assert(pairs_of(joined) == head + (pairs_of(rest) + pairs_of(b)));
        assert(pairs_of(a) == head + pairs_of(rest));
        assert(head + (pairs_of(rest) + pairs_of(b)) =~= (head + pairs_of(rest)) + pairs_of(b));
    }
}

pub fn bytes_eq(a: &[u8], b: &[u8]) -> (r: bool)
    ensures
        r == (a@ == b@),
{
    if a.len() != b.len() {
        return false;
    }
    let mut i: usize = 0;
    while i < a.len()
        invariant
            i <= a.len(),
            a.len() == b.len(),
            forall|j: int| 0 <= j < i ==> a@[j] == b@[j],
        decreases a.len() - i,
    {
        if a[i] != b[i] {
            return false;
        }
        i = i + 1;
    }
    assert(a@ =~= b@);
    true
}

/// Finds `b` in `s[from..to]`: the result is its first position there, or
/// `to` if it does not occur.
pub fn find(s: &[u8], from: usize, to: usize, b: u8) -> (r: usize)
    requires
        from <= to <= s@.len(),
    ensures
        from <= r <= to,
        r - from == first_index(s@.subrange(from as int, to as int), b),
{
    let mut i: usize = from;
    while i < to && s[i] != b
        invariant
            from <= i <= to <= s@.len(),
            forall|j: int| from <= j < i ==> s@[j] != b,
        decreases to - i,
    {
        i = i + 1;
    }
    proof {
        let t = s@.subrange(from as int, to as int);
        assert forall|j: int| 0 <= j < i - from implies t[j] != b by {
            assert(t[j] == s@[from + j]);
        }
        lemma_first_index(t, b, i - from);
    }
    i
}

fn hex_digit(b: u8) -> (r: Option<u8>)
    ensures
        r is Some <==> is_hex(b),
        r matches Some(v) ==> v == hex_value(b),
{
    if 0x30 <= b && b <= 0x39 {
        Some(b - 0x30)
    } else if 0x41 <= b && b <= 0x46 {
        Some(b - 0x41 + 10)
    } else if 0x61 <= b && b <= 0x66 {
        Some(b - 0x61 + 10)
    } else {
        None
    }
}

/// Unescapes `s[from..to]`.
pub fn unescape_range(s: &[u8], from: usize, to: usize) -> (r: Vec<u8>)
    requires
        from <= to <= s@.len(),
    ensures
        r@ == unescape(s@.subrange(from as int, to as int)),
{
    let mut out: Vec<u8> = Vec::new();
    let mut i: usize = from;
    while i < to
        invariant
            from <= i <= to <= s@.len(),
            out@ + unescape(s@.subrange(i as int, to as int)) == unescape(
                s@.subrange(from as int, to as int),
            ),
        decreases to - i,
    {
        let ghost rest = s@.subrange(i as int, to as int);
        let ghost before = out@;
        let b = s[i];
        assert(rest[0] == b);
        let mut step: usize = 1;
        let mut byte: u8 = b;
        if b == PERCENT && to - i >= 3 {
            assert(rest[1] == s@[i + 1] && rest[2] == s@[i + 2]);
            match (hex_digit(s[i + 1]), hex_digit(s[i + 2])) {
                (Some(high), Some(low)) => {
                    byte = 16 * high + low;
                    step = 3;
                },
                _ => {},
            }
        } else if b == PLUS_SIGN {
            byte = SPACE;
        }
        out.push(byte);
        i = i + step;
        proof {
            assert(rest.skip(step as int) =~= s@.subrange(i as int, to as int));
            assert(unescape(rest) == seq![byte] + unescape(rest.skip(step as int)));
            assert(out@ + unescape(rest.skip(step as int)) =~= before + unescape(rest));
        }
    }
    proof {
        assert(s@.subrange(i as int, to as int) =~= Seq::<u8>::empty());
        assert(out@ + Seq::<u8>::empty() =~= out@);
    }
    out
}

/// Decodes the segment `s[from..to]`.
fn parse_pair(s: &[u8], from: usize, to: usize) -> (r: Pair)
    requires
        from <= to <= s@.len(),
    ensures
        r@ == pair_of(s@.subrange(from as int, to as int)),
{
    let ghost segment = s@.subrange(from as int, to as int);
    let eq = find(s, from, to, EQUALS);
    let name = unescape_range(s, from, eq);
    assert(segment.take(eq - from) =~= s@.subrange(from as int, eq as int));
    let value = if eq < to {
        assert(segment.skip(eq - from + 1) =~= s@.subrange(eq + 1, to as int));
        unescape_range(s, eq + 1, to)
    } else {
        Vec::new()
    };
    Pair { name, value }
}

/// Decodes a form into its pairs.
pub fn parse_pairs(form: &[u8]) -> (r: Vec<Pair>)
    ensures
        pairs_view(r@) == pairs_of(form@),
{
    let n = form.len();
    let mut out: Vec<Pair> = Vec::new();
    let mut pos: usize = 0;
    proof {
        assert(form@.skip(0) =~= form@);
        assert(pairs_view(out@) + pairs_of(form@) =~= pairs_of(form@));
    }
    while pos < n
        invariant
            pos <= n,
            n == form@.len(),
            pairs_view(out@) + pairs_of(form@.skip(pos as int)) == pairs_of(form@),
        decreases n - pos,
    {
        let ghost rest = form@.skip(pos as int);
        let ghost before = pairs_view(out@);
        assert(form@.subrange(pos as int, n as int) =~= rest);
        let end = find(form, pos, n, AMPERSAND);
        if end > pos {
            assert(rest.take(end - pos) =~= form@.subrange(pos as int, end as int));
            let pair = parse_pair(form, pos, end);
            out.push(pair);
            assert(pairs_view(out@) =~= before + seq![pair_of(rest.take(end - pos))]);
        }
        let ghost head = pairs_view(out@);
        let ghost start = pos;
        pos = if end < n {
            end + 1
        } else {
            end
        };
        proof {
            let next = form@.skip(pos as int);
            if end < n {
                assert(rest.skip(end - start + 1) =~= next);
            } else {
                assert(next =~= Seq::<u8>::empty());
            }
            assert(head + pairs_of(next) =~= before + pairs_of(rest));
        }
    }
    proof {
        assert(form@.skip(pos as int) =~= Seq::<u8>::empty());
        assert(pairs_view(out@) + Seq::<PairView>::empty() =~= pairs_view(out@));
    }
    out
}

/// Looks `key` up among decoded pairs.
pub fn find_last<'a>(pairs: &'a Vec<Pair>, key: &[u8]) -> (r: Option<&'a Vec<u8>>)
    ensures
        match last_value(pairs_view(pairs@), key@) {
            Some(v) => r is Some && r.unwrap()@ == v,
            None => r is None,
        },
{
    let ghost all = pairs_view(pairs@);
    let mut i: usize = pairs.len();
    assert(all.take(i as int) =~= all);
    while i > 0
        invariant
            i <= pairs.len(),
            all == pairs_view(pairs@),
            last_value(all, key@) == last_value(all.take(i as int), key@),
        decreases i,
    {
        let ghost upto = all.take(i as int);
        assert(upto.last() == pairs@[i - 1]@);
        assert(upto.drop_last() =~= all.take(i - 1));
        if bytes_eq(pairs[i - 1].name.as_slice(), key) {
            return Some(&pairs[i - 1].value);
        }
        i = i - 1;
    }
    assert(all.take(0).len() == 0);
    None
}

} // verus!
