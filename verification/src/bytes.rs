//! Little-endian fixed-width integers, the building block of the wire format.
use vstd::prelude::*;

verus! {

/// One more than the largest value that fits in `width` bytes.
pub open spec fn byte_bound(width: nat) -> nat
    decreases width,
{
    if width == 0 {
        1
    } else {
        256 * byte_bound((width - 1) as nat)
    }
}

/// The `width` bytes of `value`, least significant first.
pub open spec fn le_bytes(value: nat, width: nat) -> Seq<u8>
    decreases width,
{
    if width == 0 {
        seq![]
    } else {
        seq![(value % 256) as u8] + le_bytes(value / 256, (width - 1) as nat)
    }
}

/// The number that `bytes` spell, least significant byte first.
pub open spec fn le_value(bytes: Seq<u8>) -> nat
    decreases bytes.len(),
{
    if bytes.len() == 0 {
        0
    } else {
        bytes[0] as nat + 256 * le_value(bytes.drop_first())
    }
}

/// Two's complement of a signed number in `width` bytes, as the unsigned number it is stored as.
pub open spec fn twos_complement(value: int, width: nat) -> nat {
    if value < 0 {
        (value + byte_bound(width)) as nat
    } else {
        value as nat
    }
}

/// The signed number that an unsigned `width`-byte pattern stands for.
pub open spec fn from_twos_complement(stored: nat, width: nat) -> int {
    if stored >= byte_bound(width) / 2 {
        stored - byte_bound(width)
    } else {
        stored as int
    }
}

pub proof fn lemma_byte_bound_values()
    ensures
        byte_bound(1) == 0x100,
        byte_bound(2) == 0x1_0000,
        byte_bound(4) == 0x1_0000_0000,
        byte_bound(8) == 0x1_0000_0000_0000_0000,
{
    reveal_with_fuel(byte_bound, 9);
}

pub proof fn lemma_le_bytes_len(value: nat, width: nat)
    ensures
        le_bytes(value, width).len() == width,
    decreases width,
{
    if width > 0 {
        lemma_le_bytes_len(value / 256, (width - 1) as nat);
    }
}

/// Reading back the bytes of a value that fits gives the value.
pub proof fn lemma_le_round_trip(value: nat, width: nat)
    requires
        value < byte_bound(width),
    ensures
        le_value(le_bytes(value, width)) == value,
        le_bytes(value, width).len() == width,
    decreases width,
{
    lemma_le_bytes_len(value, width);
    if width > 0 {
        let rest = le_bytes(value / 256, (width - 1) as nat);
        assert(value / 256 < byte_bound((width - 1) as nat)) by (nonlinear_arith)
            requires
                value < 256 * byte_bound((width - 1) as nat),
        ;
        lemma_le_round_trip(value / 256, (width - 1) as nat);
        assert(le_bytes(value, width).drop_first() =~= rest);
        assert(value == value % 256 + 256 * (value / 256)) by (nonlinear_arith);
    }
}

/// The value spelled by any bytes fits their width.
pub proof fn lemma_le_value_bound(bytes: Seq<u8>)
    ensures
        le_value(bytes) < byte_bound(bytes.len()),
    decreases bytes.len(),
{
    if bytes.len() > 0 {
        lemma_le_value_bound(bytes.drop_first());
    }
}

pub proof fn lemma_twos_complement_round_trip(value: int, width: nat)
    requires
        width > 0,
        -(byte_bound(width) / 2) <= value < byte_bound(width) / 2,
    ensures
        twos_complement(value, width) < byte_bound(width),
        from_twos_complement(twos_complement(value, width), width) == value,
{
}

/// Appends the `width` bytes of `value`, least significant first.
pub fn push_le(out: &mut Vec<u8>, value: u64, width: usize)
    requires
        width <= 8,
    ensures
        final(out)@ == old(out)@ + le_bytes(value as nat, width as nat),
{
    let mut rest = value;
    let mut i: usize = 0;
    while i < width
        invariant
            i <= width,
            old(out)@ + le_bytes(value as nat, width as nat) == out@ + le_bytes(
                rest as nat,
                (width - i) as nat,
            ),
        decreases width - i,
    {
        let byte = (rest % 256) as u8;
        assert(le_bytes(rest as nat, (width - i) as nat) == seq![byte] + le_bytes(
            (rest / 256) as nat,
            (width - i - 1) as nat,
        ));
        out.push(byte);
        rest = rest / 256;
        i = i + 1;
        assert(old(out)@ + le_bytes(value as nat, width as nat) =~= out@ + le_bytes(
            rest as nat,
            (width - i) as nat,
        ));
    }
    assert(le_bytes(rest as nat, 0) =~= Seq::<u8>::empty());
    assert(out@ + le_bytes(rest as nat, 0) =~= out@);
}

/// The number spelled by `data[start..start + width]`, least significant byte first.
pub fn read_le(data: &[u8], start: usize, width: usize) -> (value: u64)
    requires
        width <= 8,
        start + width <= data@.len(),
    ensures
        value as nat == le_value(data@.subrange(start as int, start + width)),
{
    let total = data.len();
    assert(start + width <= total);
    let end = start + width;
    let mut value: u64 = 0;
    let mut j: usize = width;
    proof {
        lemma_byte_bound_values();
        assert(data@.subrange(end as int, end as int) =~= Seq::<u8>::empty());
    }
    while j > 0
        invariant
            j <= width <= 8,
            end == start + width <= data@.len(),
            value as nat == le_value(data@.subrange(start + j, end as int)),
            byte_bound(8) == 0x1_0000_0000_0000_0000,
        decreases j,
    {
        let ghost tail = data@.subrange(start + j, end as int);
        let ghost whole = data@.subrange(start + j - 1, end as int);
        proof {
            assert(whole.drop_first() =~= tail);
            lemma_le_value_bound(tail);
            lemma_byte_bound_monotone(tail.len(), 7);
        }
        let byte = data[start + j - 1];
        value = value * 256 + byte as u64;
        j = j - 1;
    }
    value
}

pub proof fn lemma_byte_bound_monotone(a: nat, b: nat)
    requires
        a <= b,
    ensures
        byte_bound(a) <= byte_bound(b),
    decreases b,
{
    if a < b {
        lemma_byte_bound_monotone(a, (b - 1) as nat);
    }
}

/// A piece of `whole` stands at the same offset wherever `whole` stands.
pub proof fn lemma_chunk(data: Seq<u8>, pos: int, whole: Seq<u8>, start: int, piece: Seq<u8>)
    requires
        0 <= pos,
        0 <= start,
        start + piece.len() <= whole.len(),
        pos + whole.len() <= data.len(),
        data.subrange(pos, pos + whole.len()) == whole,
        whole.subrange(start, start + piece.len()) == piece,
    ensures
        data.subrange(pos + start, pos + start + piece.len()) == piece,
{
    assert forall|k: int| 0 <= k < piece.len() implies data.subrange(pos + start, pos + start + piece.len())[k]
        == piece[k] by {
        assert(whole.subrange(start, start + piece.len())[k] == whole[start + k]);
        assert(data.subrange(pos, pos + whole.len())[start + k] == data[pos + start + k]);
    }
    assert(data.subrange(pos + start, pos + start + piece.len()) =~= piece);
}

} // verus!
