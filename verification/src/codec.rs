//! The wire layout of integers and lengths: little-endian fixed-width
//! integers and the compact length prefix, each with the function that
//! writes it, the function that reads it, and the proof that the two agree.
use vstd::prelude::*;

verus! {

/// The two bytes of `x`, low byte first.
#[verifier::opaque]
pub open spec fn le16(x: u16) -> Seq<u8> {
    seq![(x % 256) as u8, (x / 256) as u8]
}

/// The four bytes of `x`, low byte first.
#[verifier::opaque]
pub open spec fn le32(x: u32) -> Seq<u8> {
    seq![
        (x % 256) as u8,
        ((x / 256) % 256) as u8,
        ((x / 65536) % 256) as u8,
        (x / 16777216) as u8,
    ]
}

/// The eight bytes of `x`, low byte first.
#[verifier::opaque]
pub open spec fn le64(x: u64) -> Seq<u8> {
    le32((x % 0x1_0000_0000) as u32) + le32((x / 0x1_0000_0000) as u32)
}

/// The number whose low byte is `s[0]` and whose high byte is `s[1]`.
#[verifier::opaque]
pub open spec fn le16_value(s: Seq<u8>) -> u16
    recommends
        s.len() >= 2,
{
    (s[0] as int + 256 * (s[1] as int)) as u16
}

/// The number that the first four bytes of `s` hold, low byte first.
#[verifier::opaque]
pub open spec fn le32_value(s: Seq<u8>) -> u32
    recommends
        s.len() >= 4,
{
    (s[0] as int + 256 * (s[1] as int) + 65536 * (s[2] as int) + 16777216 * (s[3] as int)) as u32
}

/// The number that the first eight bytes of `s` hold, low byte first.
#[verifier::opaque]
pub open spec fn le64_value(s: Seq<u8>) -> u64
    recommends
        s.len() >= 8,
{
    (le32_value(s) as int + 0x1_0000_0000 * (le32_value(s.skip(4)) as int)) as u64
}

/// The compact form of a length: one, two, four or five bytes, the shortest
/// that holds `n`. The two low bits of the first byte tell which.
#[verifier::opaque]
pub open spec fn compact(n: u32) -> Seq<u8> {
    if n < 64 {
        seq![(4 * n) as u8]
    } else if n < 16384 {
        le16((4 * n + 1) as u16)
    } else if n < 0x4000_0000 {
        le32((4 * n + 2) as u32)
    } else {
        seq![3u8] + le32(n)
    }
}

/// What a reader finds at the start of `s`: a length in its compact form and
/// the number of bytes it took, or nothing where `s` starts with no compact
/// form of any length. A longer form than the length needs is no compact
/// form.
#[verifier::opaque]
pub open spec fn parse_compact(s: Seq<u8>) -> Option<(u32, nat)> {
    if s.len() == 0 {
        None
    } else if s[0] % 4 == 0 {
        Some(((s[0] / 4) as u32, 1))
    } else if s[0] % 4 == 1 {
        if s.len() >= 2 && le16_value(s) / 4 >= 64 {
            Some(((le16_value(s) / 4) as u32, 2))
        } else {
            None
        }
    } else if s[0] % 4 == 2 {
        if s.len() >= 4 && le32_value(s) / 4 >= 16384 {
            Some((le32_value(s) / 4, 4))
        } else {
            None
        }
    } else {
        if s[0] == 3 && s.len() >= 5 && le32_value(s.skip(1)) >= 0x4000_0000 {
            Some((le32_value(s.skip(1)), 5))
        } else {
            None
        }
    }
}

/// A number below 256 and a multiple of 256 added: division by 256 parts
/// them again.
proof fn lemma_split_low_byte(low: int, high: int)
    by (nonlinear_arith)
    requires
        0 <= low < 256,
        0 <= high,
    ensures
        (low + 256 * high) % 256 == low,
        (low + 256 * high) / 256 == high,
{
}

/// Reading back what `le16` wrote gives the number again.
pub proof fn lemma_le16_value(x: u16, rest: Seq<u8>)
    ensures
        le16(x).len() == 2,
        le16_value(le16(x) + rest) == x,
{
    reveal(le16);
    reveal(le16_value);
    let s = le16(x) + rest;
    assert(s[0] == le16(x)[0]);
    assert(s[1] == le16(x)[1]);
}

/// Writing the number that two bytes hold gives the two bytes again.
pub proof fn lemma_le16_bytes(s: Seq<u8>)
    requires
        s.len() >= 2,
    ensures
        le16(le16_value(s)) == s.subrange(0, 2),
{
    reveal(le16);
    reveal(le16_value);
    assert(le16(le16_value(s)) =~= s.subrange(0, 2));
}

/// Reading back what `le32` wrote gives the number again.
pub proof fn lemma_le32_value(x: u32, rest: Seq<u8>)
    ensures
        le32(x).len() == 4,
        le32_value(le32(x) + rest) == x,
{
    reveal(le32);
    reveal(le32_value);
    let s = le32(x) + rest;
    assert(s[0] == le32(x)[0]);
    assert(s[1] == le32(x)[1]);
    assert(s[2] == le32(x)[2]);
    assert(s[3] == le32(x)[3]);
}

/// Writing the number that four bytes hold gives the four bytes again.
pub proof fn lemma_le32_bytes(s: Seq<u8>)
    requires
        s.len() >= 4,
    ensures
        le32(le32_value(s)) == s.subrange(0, 4),
{
    reveal(le32);
    reveal(le32_value);
    let b0 = s[0] as int;
    let b1 = s[1] as int;
    let b2 = s[2] as int;
    let b3 = s[3] as int;
    lemma_split_low_byte(b0, b1 + 256 * (b2 + 256 * b3));
    lemma_split_low_byte(b1, b2 + 256 * b3);
    lemma_split_low_byte(b2, b3);
    assert(le32(le32_value(s)) =~= s.subrange(0, 4));
}

/// Reading back what `le64` wrote gives the number again.
pub proof fn lemma_le64_value(x: u64, rest: Seq<u8>)
    ensures
        le64(x).len() == 8,
        le64_value(le64(x) + rest) == x,
{
    reveal(le64);
    reveal(le64_value);
    let lo = (x % 0x1_0000_0000) as u32;
    let hi = (x / 0x1_0000_0000) as u32;
    let s = le64(x) + rest;
    lemma_le32_value(lo, le32(hi) + rest);
    lemma_le32_value(hi, rest);
    assert(s =~= le32(lo) + (le32(hi) + rest));
    assert(s.skip(4) =~= le32(hi) + rest);
}

/// Writing the number that eight bytes hold gives the eight bytes again.
pub proof fn lemma_le64_bytes(s: Seq<u8>)
    requires
        s.len() >= 8,
    ensures
        le64(le64_value(s)) == s.subrange(0, 8),
{
    reveal(le64);
    reveal(le64_value);
    let lo = le32_value(s);
    let hi = le32_value(s.skip(4));
    lemma_le32_bytes(s);
    lemma_le32_bytes(s.skip(4));
    assert(le64_value(s) % 0x1_0000_0000 == lo);
    assert(le64_value(s) / 0x1_0000_0000 == hi);
    assert(s.subrange(0, 4) + s.skip(4).subrange(0, 4) =~= s.subrange(0, 8));
}

/// Reading back the compact form of a length gives the length again, and
/// tells how many bytes the form took.
pub proof fn lemma_parse_compact_of_compact(n: u32, rest: Seq<u8>)
    ensures
        1 <= compact(n).len() <= 5,
        parse_compact(compact(n) + rest) == Some((n, compact(n).len())),
{
    reveal(compact);
    reveal(parse_compact);
    reveal(le16);
    reveal(le32);
    let s = compact(n) + rest;
    assert(s[0] == compact(n)[0]);
    if n < 64 {
    } else if n < 16384 {
        lemma_le16_value((4 * n + 1) as u16, rest);
    } else if n < 0x4000_0000 {
        lemma_le32_value((4 * n + 2) as u32, rest);
    } else {
        lemma_le32_value(n, rest);
        assert(s.skip(1) =~= le32(n) + rest);
    }
}

/// The two low bits of a number are those of its low byte.
proof fn lemma_low_bits(low: int, high: int)
    by (nonlinear_arith)
    requires
        0 <= low,
        0 <= high,
    ensures
        (low + 256 * high) % 4 == low % 4,
{
}

/// Whatever `parse_compact` accepts is the compact form of the length it
/// reports, and nothing else.
pub proof fn lemma_compact_of_parse_compact(s: Seq<u8>)
    ensures
        parse_compact(s) matches Some((n, used)) ==> 1 <= used <= s.len() && compact(n)
            == s.subrange(0, used as int),
{
    reveal(compact);
    reveal(parse_compact);
    reveal(le16_value);
    reveal(le32_value);
    if let Some((n, used)) = parse_compact(s) {
        let b0 = s[0] as int;
        if s[0] % 4 == 0 {
            assert(compact(n) =~= s.subrange(0, 1));
        } else if s[0] % 4 == 1 {
            let v = le16_value(s);
            assert(v % 4 == 1) by {
                lemma_low_bits(b0, s[1] as int);
            }
            assert((4 * n + 1) as u16 == v);
            lemma_le16_bytes(s);
        } else if s[0] % 4 == 2 {
            let v = le32_value(s);
            assert(v % 4 == 2) by {
                lemma_low_bits(b0, s[1] as int + 256 * (s[2] as int + 256 * (s[3] as int)));
            }
            assert((4 * n + 2) as u32 == v);
            lemma_le32_bytes(s);
        } else {
            lemma_le32_bytes(s.skip(1));
            assert(seq![3u8] + s.skip(1).subrange(0, 4) =~= s.subrange(0, 5));
        }
    }
}

/// A value with a wire layout: the bytes that stand for it, and the reading
/// of a value from the start of a byte string. The two proofs make the
/// layout unambiguous: what was written is read back, and only what could
/// have been written is read.
pub trait Wire: Sized {
    /// Whether the value can be written: its lengths fit their prefixes.
    spec fn wire_ok(self) -> bool;

    /// The bytes that stand for the value.
    spec fn wire(self) -> Seq<u8>;

    /// The value that `s` starts with and the number of bytes it takes.
    spec fn parse(s: Seq<u8>) -> Option<(Self, nat)>;

    /// A written value is read back, whatever follows it.
    proof fn lemma_parse_wire(self, rest: Seq<u8>)
        requires
            self.wire_ok(),
        ensures
            Self::parse(self.wire() + rest) == Some((self, self.wire().len())),
    ;

    /// A value that is read was written there, byte for byte.
    proof fn lemma_wire_parse(s: Seq<u8>)
        ensures
            Self::parse(s) matches Some((v, used)) ==> v.wire_ok() && used <= s.len() && v.wire()
                == s.subrange(0, used as int),
    ;
}

/// The items of `xs` written one after the other, with no prefix.
pub open spec fn wire_items<T: Wire>(xs: Seq<T>) -> Seq<u8>
    decreases xs.len(),
{
    if xs.len() == 0 {
        Seq::empty()
    } else {
        xs.first().wire() + wire_items(xs.drop_first())
    }
}

/// Whether every item of `xs` can be written.
pub open spec fn items_ok<T: Wire>(xs: Seq<T>) -> bool {
    forall|i: int| 0 <= i < xs.len() ==> (#[trigger] xs[i]).wire_ok()
}

/// The first `n` items that `s` starts with and the bytes they take.
pub open spec fn parse_items<T: Wire>(s: Seq<u8>, n: nat) -> Option<(Seq<T>, nat)>
    decreases n,
{
    if n == 0 {
        Some((Seq::empty(), 0))
    } else {
        match T::parse(s) {
            Some((x, used)) => match parse_items::<T>(s.skip(used as int), (n - 1) as nat) {
                Some((xs, more)) => Some((seq![x] + xs, used + more)),
                None => None,
            },
            None => None,
        }
    }
}

/// Whether the list can be written: its length fits the compact prefix and
/// so does every item.
pub open spec fn list_ok<T: Wire>(xs: Seq<T>) -> bool {
    xs.len() <= u32::MAX && items_ok(xs)
}

/// A list on the wire: its length in compact form, then its items.
pub open spec fn wire_list<T: Wire>(xs: Seq<T>) -> Seq<u8> {
    compact(xs.len() as u32) + wire_items(xs)
}

/// The list that `s` starts with and the bytes it takes.
pub open spec fn parse_list<T: Wire>(s: Seq<u8>) -> Option<(Seq<T>, nat)> {
    match parse_compact(s) {
        Some((n, used)) => match parse_items::<T>(s.skip(used as int), n as nat) {
            Some((xs, more)) => Some((xs, used + more)),
            None => None,
        },
        None => None,
    }
}

/// Writing one more item appends its bytes.
pub proof fn lemma_wire_items_push<T: Wire>(xs: Seq<T>, x: T)
    ensures
        wire_items(xs.push(x)) == wire_items(xs) + x.wire(),
    decreases xs.len(),
{
    if xs.len() == 0 {
        assert(xs.push(x).drop_first() =~= Seq::<T>::empty());
        assert(wire_items(Seq::<T>::empty()) =~= Seq::<u8>::empty());
        assert(wire_items(xs.push(x)) =~= wire_items(xs) + x.wire());
    } else {
        lemma_wire_items_push(xs.drop_first(), x);
        assert(xs.push(x).drop_first() =~= xs.drop_first().push(x));
        assert(wire_items(xs.push(x)) =~= wire_items(xs) + x.wire());
    }
}

/// Written items are read back, whatever follows them.
pub proof fn lemma_parse_items_wire<T: Wire>(xs: Seq<T>, rest: Seq<u8>)
    requires
        items_ok(xs),
    ensures
        parse_items::<T>(wire_items(xs) + rest, xs.len()) == Some((xs, wire_items(xs).len())),
    decreases xs.len(),
{
    if xs.len() == 0 {
    } else {
        let x = xs.first();
        let tail = xs.drop_first();
        let s = wire_items(xs) + rest;
        assert(x.wire_ok());
        assert(items_ok(tail)) by {
            assert forall|i: int| 0 <= i < tail.len() implies (#[trigger] tail[i]).wire_ok() by {
                assert(tail[i] == xs[i + 1]);
            }
        }
        x.lemma_parse_wire(wire_items(tail) + rest);
        assert(s =~= x.wire() + (wire_items(tail) + rest));
        assert(s.skip(x.wire().len() as int) =~= wire_items(tail) + rest);
        lemma_parse_items_wire(tail, rest);
        assert(seq![x] + tail =~= xs);
    }
}

/// Items that are read were written there, byte for byte.
pub proof fn lemma_wire_parse_items<T: Wire>(s: Seq<u8>, n: nat)
    ensures
        parse_items::<T>(s, n) matches Some((xs, used)) ==> xs.len() == n && items_ok(xs) && used
            <= s.len() && wire_items(xs) == s.subrange(0, used as int),
    decreases n,
{
    if n == 0 {
        assert(wire_items(Seq::<T>::empty()) =~= s.subrange(0, 0));
    } else if let Some((x, used)) = T::parse(s) {
        T::lemma_wire_parse(s);
        lemma_wire_parse_items::<T>(s.skip(used as int), (n - 1) as nat);
        if let Some((tail, more)) = parse_items::<T>(s.skip(used as int), (n - 1) as nat) {
            let xs = seq![x] + tail;
            assert(xs.drop_first() =~= tail);
            assert(xs.first() == x);
            assert(s.subrange(0, used as int) + s.skip(used as int).subrange(0, more as int)
                =~= s.subrange(0, (used + more) as int));
        }
    }
}

/// One more item read after `j` items makes `j + 1` items; and where no item
/// can be read there, no longer run of items can be read either.
pub proof fn lemma_parse_items_next<T: Wire>(s: Seq<u8>, j: nat, n: nat)
    requires
        j < n,
        parse_items::<T>(s, j) is Some,
    ensures
        ({
            let (xs, used) = parse_items::<T>(s, j).unwrap();
            match T::parse(s.skip(used as int)) {
                Some((x, more)) => parse_items::<T>(s, j + 1) == Some((xs.push(x), used + more)),
                None => parse_items::<T>(s, n) is None,
            }
        }),
    decreases j,
{
    let (xs, used) = parse_items::<T>(s, j).unwrap();
    if j == 0 {
        assert(s.skip(0) =~= s);
        match T::parse(s) {
            Some((x, more)) => {
                assert(parse_items::<T>(s.skip(more as int), 0) == Some((Seq::<T>::empty(), 0nat)));
                assert(seq![x] + Seq::<T>::empty() =~= xs.push(x));
            },
            None => {},
        }
    } else {
        let (x0, u0) = T::parse(s).unwrap();
        let s1 = s.skip(u0 as int);
        let (tail, u1) = parse_items::<T>(s1, (j - 1) as nat).unwrap();
        T::lemma_wire_parse(s);
        lemma_wire_parse_items::<T>(s1, (j - 1) as nat);
        lemma_parse_items_next::<T>(s1, (j - 1) as nat, (n - 1) as nat);
        assert(s1.skip(u1 as int) =~= s.skip(used as int));
        match T::parse(s.skip(used as int)) {
            Some((x, more)) => {
                assert(seq![x0] + tail.push(x) =~= xs.push(x));
            },
            None => {},
        }
    }
}

/// A written list is read back, whatever follows it.
pub proof fn lemma_parse_list_wire<T: Wire>(xs: Seq<T>, rest: Seq<u8>)
    requires
        list_ok(xs),
    ensures
        parse_list::<T>(wire_list(xs) + rest) == Some((xs, wire_list(xs).len())),
{
    let n = xs.len() as u32;
    let s = wire_list(xs) + rest;
    lemma_parse_compact_of_compact(n, wire_items(xs) + rest);
    assert(s =~= compact(n) + (wire_items(xs) + rest));
    assert(s.skip(compact(n).len() as int) =~= wire_items(xs) + rest);
    lemma_parse_items_wire(xs, rest);
}

/// A list that is read was written there, byte for byte.
pub proof fn lemma_wire_parse_list<T: Wire>(s: Seq<u8>)
    ensures
        parse_list::<T>(s) matches Some((xs, used)) ==> list_ok(xs) && used <= s.len()
            && wire_list(xs) == s.subrange(0, used as int),
{
    if let Some((n, u0)) = parse_compact(s) {
        lemma_compact_of_parse_compact(s);
        lemma_wire_parse_items::<T>(s.skip(u0 as int), n as nat);
        if let Some((xs, more)) = parse_items::<T>(s.skip(u0 as int), n as nat) {
            assert(s.subrange(0, u0 as int) + s.skip(u0 as int).subrange(0, more as int)
                =~= s.subrange(0, (u0 + more) as int));
        }
    }
}

/// An eight-byte integer on the wire.
impl Wire for u64 {
    open spec fn wire_ok(self) -> bool {
        true
    }

    open spec fn wire(self) -> Seq<u8> {
        le64(self)
    }

    open spec fn parse(s: Seq<u8>) -> Option<(u64, nat)> {
        if s.len() >= 8 {
            Some((le64_value(s), 8))
        } else {
            None
        }
    }

    proof fn lemma_parse_wire(self, rest: Seq<u8>) {
        lemma_le64_value(self, rest);
    }

    proof fn lemma_wire_parse(s: Seq<u8>) {
        if s.len() >= 8 {
            lemma_le64_bytes(s);
        }
    }
}

/// Appends the four bytes of `x`.
pub fn put_le32(out: &mut Vec<u8>, x: u32)
    ensures
        final(out)@ == old(out)@ + le32(x),
{
    proof {
        reveal(le32);
    }
    out.push((x % 256) as u8);
    out.push(((x / 256) % 256) as u8);
    out.push(((x / 65536) % 256) as u8);
    out.push((x / 16777216) as u8);
    assert(out@ =~= old(out)@ + le32(x));
}

/// Appends the eight bytes of `x`.
pub fn put_le64(out: &mut Vec<u8>, x: u64)
    ensures
        final(out)@ == old(out)@ + le64(x),
{
    proof {
        reveal(le64);
    }
    put_le32(out, (x % 0x1_0000_0000) as u32);
    put_le32(out, (x / 0x1_0000_0000) as u32);
    assert(out@ =~= old(out)@ + le64(x));
}

/// Appends the compact form of the length `n`.
pub fn put_compact(out: &mut Vec<u8>, n: u32)
    ensures
        final(out)@ == old(out)@ + compact(n),
{
    proof {
        reveal(compact);
        reveal(le16);
    }
    if n < 64 {
        out.push((4 * n) as u8);
    } else if n < 16384 {
        let v: u32 = 4 * n + 1;
        out.push((v % 256) as u8);
        out.push((v / 256) as u8);
    } else if n < 0x4000_0000 {
        put_le32(out, 4 * n + 2);
    } else {
        out.push(3u8);
        put_le32(out, n);
    }
    assert(out@ =~= old(out)@ + compact(n));
}

/// Reads four bytes at `pos`; nothing where fewer than four are left.
pub fn get_le32(bytes: &[u8], pos: usize) -> (r: Option<(u32, usize)>)
    ensures
        match r {
            Some((x, next)) => pos + 4 <= bytes@.len() && next == pos + 4 && x == le32_value(
                bytes@.skip(pos as int),
            ),
            None => pos + 4 > bytes@.len(),
        },
{
    proof {
        reveal(le32_value);
    }
    if pos > bytes.len() || bytes.len() - pos < 4 {
        return None;
    }
    let b0: u32 = bytes[pos] as u32;
    let b1: u32 = bytes[pos + 1] as u32;
    let b2: u32 = bytes[pos + 2] as u32;
    let b3: u32 = bytes[pos + 3] as u32;
    Some((b0 + 256 * b1 + 65536 * b2 + 16777216 * b3, pos + 4))
}

/// Reads eight bytes at `pos`; nothing where fewer than eight are left.
pub fn get_le64(bytes: &[u8], pos: usize) -> (r: Option<(u64, usize)>)
    ensures
        match r {
            Some((x, next)) => pos + 8 <= bytes@.len() && next == pos + 8 && x == le64_value(
                bytes@.skip(pos as int),
            ),
            None => pos + 8 > bytes@.len(),
        },
{
    proof {
        reveal(le64_value);
    }
    if pos > bytes.len() || bytes.len() - pos < 8 {
        return None;
    }
    let lo = match get_le32(bytes, pos) {
        Some((x, _)) => x,
        None => { return None; },
    };
    let hi = match get_le32(bytes, pos + 4) {
        Some((x, _)) => x,
        None => { return None; },
    };
    assert(bytes@.skip(pos as int).skip(4) =~= bytes@.skip(pos + 4));
    Some(((lo as u64) + 0x1_0000_0000 * (hi as u64), pos + 8))
}

/// Reads a length in its compact form at `pos`; nothing where no compact
/// form stands there.
pub fn get_compact(bytes: &[u8], pos: usize) -> (r: Option<(u32, usize)>)
    ensures
        match r {
            Some((n, next)) => pos < next <= bytes@.len() && parse_compact(
                bytes@.skip(pos as int),
            ) == Some((n, (next - pos) as nat)),
            None => pos >= bytes@.len() || parse_compact(bytes@.skip(pos as int)) is None,
        },
{
    proof {
        reveal(parse_compact);
        reveal(le16_value);
    }
    if pos >= bytes.len() {
        return None;
    }
    let b0 = bytes[pos];
    let mode = b0 % 4;
    if mode == 0 {
        Some(((b0 / 4) as u32, pos + 1))
    } else if mode == 1 {
        if bytes.len() - pos < 2 {
            return None;
        }
        let v: u32 = (b0 as u32) + 256 * (bytes[pos + 1] as u32);
        if v / 4 < 64 {
            return None;
        }
        Some((v / 4, pos + 2))
    } else if mode == 2 {
        match get_le32(bytes, pos) {
            Some((v, next)) => {
                if v / 4 < 16384 {
                    None
                } else {
                    Some((v / 4, next))
                }
            },
            None => None,
        }
    } else {
        if b0 != 3 {
            return None;
        }
        assert(bytes@.skip(pos as int).skip(1) =~= bytes@.skip(pos + 1));
        match get_le32(bytes, pos + 1) {
            Some((n, next)) => {
                if n < 0x4000_0000 {
                    None
                } else {
                    Some((n, next))
                }
            },
            None => None,
        }
    }
}

} // verus!
