use vstd::prelude::*;

verus! {

/// The 2-byte big-endian encoding of a 16-bit integer.
pub open spec fn u16_be(x: u16) -> Seq<u8> {
    seq![((x >> 8) & 0xff) as u8, (x & 0xff) as u8]
}

/// The 8-byte big-endian encoding of a 64-bit integer.
pub open spec fn u64_be(x: u64) -> Seq<u8> {
    seq![
        ((x >> 56) & 0xff) as u8,
        ((x >> 48) & 0xff) as u8,
        ((x >> 40) & 0xff) as u8,
        ((x >> 32) & 0xff) as u8,
        ((x >> 24) & 0xff) as u8,
        ((x >> 16) & 0xff) as u8,
        ((x >> 8) & 0xff) as u8,
        (x & 0xff) as u8,
    ]
}

/// Two 16-bit integers with the same big-endian encoding are equal.
pub proof fn lemma_u16_be_injective(x: u16, y: u16)
    requires
        u16_be(x) == u16_be(y),
    ensures
        x == y,
{
    assert(u16_be(x)[0] == u16_be(y)[0]);
    assert(u16_be(x)[1] == u16_be(y)[1]);
    assert((((x >> 8) & 0xff) as u8 == ((y >> 8) & 0xff) as u8 && (x & 0xff) as u8 == (y
        & 0xff) as u8) ==> x == y) by (bit_vector);
}

/// Two 64-bit integers with the same big-endian encoding are equal.
pub proof fn lemma_u64_be_injective(x: u64, y: u64)
    requires
        u64_be(x) == u64_be(y),
    ensures
        x == y,
{
    assert(u64_be(x)[0] == u64_be(y)[0]);
    assert(u64_be(x)[1] == u64_be(y)[1]);
    assert(u64_be(x)[2] == u64_be(y)[2]);
    assert(u64_be(x)[3] == u64_be(y)[3]);
    assert(u64_be(x)[4] == u64_be(y)[4]);
    assert(u64_be(x)[5] == u64_be(y)[5]);
    assert(u64_be(x)[6] == u64_be(y)[6]);
    assert(u64_be(x)[7] == u64_be(y)[7]);
    assert((((x >> 56) & 0xff) as u8 == ((y >> 56) & 0xff) as u8 && ((x >> 48) & 0xff) as u8 == ((y
        >> 48) & 0xff) as u8 && ((x >> 40) & 0xff) as u8 == ((y >> 40) & 0xff) as u8 && ((x >> 32)
        & 0xff) as u8 == ((y >> 32) & 0xff) as u8 && ((x >> 24) & 0xff) as u8 == ((y >> 24)
        & 0xff) as u8 && ((x >> 16) & 0xff) as u8 == ((y >> 16) & 0xff) as u8 && ((x >> 8)
        & 0xff) as u8 == ((y >> 8) & 0xff) as u8 && (x & 0xff) as u8 == (y & 0xff) as u8) ==> x
        == y) by (bit_vector);
}

/// Appends the 2-byte big-endian encoding of `x`.
pub fn push_u16_be(out: &mut Vec<u8>, x: u16)
    ensures
        final(out)@ == old(out)@ + u16_be(x),
{
    let b0: u8 = (x >> 8) as u8;
    let b1: u8 = (x & 0xff) as u8;
    proof {
        assert(b0 == ((x >> 8) & 0xff) as u8 && b1 == (x & 0xff) as u8) by (bit_vector)
            requires
                b0 == (x >> 8) as u8,
                b1 == (x & 0xff) as u8,
        ;
    }
    out.push(b0);
    out.push(b1);
    proof {
        assert(out@ =~= old(out)@ + u16_be(x));
    }
}

/// Appends the 8-byte big-endian encoding of `x`.
pub fn push_u64_be(out: &mut Vec<u8>, x: u64)
    ensures
        final(out)@ == old(out)@ + u64_be(x),
{
    let b0: u8 = (x >> 56) as u8;
    let b1: u8 = (x >> 48) as u8;
    let b2: u8 = (x >> 40) as u8;
    let b3: u8 = (x >> 32) as u8;
    let b4: u8 = (x >> 24) as u8;
    let b5: u8 = (x >> 16) as u8;
    let b6: u8 = (x >> 8) as u8;
    let b7: u8 = (x & 0xff) as u8;
    proof {
        assert(b0 == ((x >> 56) & 0xff) as u8 && b1 == ((x >> 48) & 0xff) as u8 && b2 == ((x >> 40)
            & 0xff) as u8 && b3 == ((x >> 32) & 0xff) as u8 && b4 == ((x >> 24) & 0xff) as u8 && b5
            == ((x >> 16) & 0xff) as u8 && b6 == ((x >> 8) & 0xff) as u8 && b7 == (x
            & 0xff) as u8) by (bit_vector)
            requires
                b0 == (x >> 56) as u8,
                b1 == (x >> 48) as u8,
                b2 == (x >> 40) as u8,
                b3 == (x >> 32) as u8,
                b4 == (x >> 24) as u8,
                b5 == (x >> 16) as u8,
                b6 == (x >> 8) as u8,
                b7 == (x & 0xff) as u8,
        ;
    }
    out.push(b0);
    out.push(b1);
    out.push(b2);
    out.push(b3);
    out.push(b4);
    out.push(b5);
    out.push(b6);
    out.push(b7);
    proof {
        assert(out@ =~= old(out)@ + u64_be(x));
    }
}

/// Reads a 16-bit big-endian integer at position `from`.
pub fn read_u16_be(input: &Vec<u8>, from: usize) -> (x: u16)
    requires
        from + 2 <= input@.len(),
    ensures
        u16_be(x) == input@.subrange(from as int, from + 2),
{
    let _n: usize = input.len();
    let hi: u8 = input[from];
    let lo: u8 = input[from + 1];
    let x: u16 = ((hi as u16) << 8) | (lo as u16);
    proof {
        assert(((x >> 8) & 0xff) as u8 == hi && (x & 0xff) as u8 == lo) by (bit_vector)
            requires
                x == ((hi as u16) << 8) | (lo as u16),
        ;
        assert(u16_be(x) =~= input@.subrange(from as int, from + 2));
    }
    x
}

/// Reads a 64-bit big-endian integer at position `from`.
pub fn read_u64_be(input: &Vec<u8>, from: usize) -> (x: u64)
    requires
        from + 8 <= input@.len(),
    ensures
        u64_be(x) == input@.subrange(from as int, from + 8),
{
    let _n: usize = input.len();
    let b0: u8 = input[from];
    let b1: u8 = input[from + 1];
    let b2: u8 = input[from + 2];
    let b3: u8 = input[from + 3];
    let b4: u8 = input[from + 4];
    let b5: u8 = input[from + 5];
    let b6: u8 = input[from + 6];
    let b7: u8 = input[from + 7];
    let x: u64 = ((b0 as u64) << 56) | ((b1 as u64) << 48) | ((b2 as u64) << 40) | ((b3 as u64)
        << 32) | ((b4 as u64) << 24) | ((b5 as u64) << 16) | ((b6 as u64) << 8) | (b7 as u64);
    proof {
        assert(((x >> 56) & 0xff) as u8 == b0 && ((x >> 48) & 0xff) as u8 == b1 && ((x >> 40)
            & 0xff) as u8 == b2 && ((x >> 32) & 0xff) as u8 == b3 && ((x >> 24) & 0xff) as u8 == b4
            && ((x >> 16) & 0xff) as u8 == b5 && ((x >> 8) & 0xff) as u8 == b6 && (x
            & 0xff) as u8 == b7) by (bit_vector)
            requires
                x == ((b0 as u64) << 56) | ((b1 as u64) << 48) | ((b2 as u64) << 40) | ((
                b3 as u64) << 32) | ((b4 as u64) << 24) | ((b5 as u64) << 16) | ((b6 as u64) << 8)
                    | (b7 as u64),
        ;
        assert(u64_be(x) =~= input@.subrange(from as int, from + 8));
    }
    x
}

/// Appends all 32 bytes of `a`.
pub fn push_bytes32(out: &mut Vec<u8>, a: &[u8; 32])
    ensures
        final(out)@ == old(out)@ + a@,
{
    let mut i: usize = 0;
    while i < 32
        invariant
            i <= 32,
            out@ == old(out)@ + a@.subrange(0, i as int),
        decreases 32 - i,
    {
        out.push(a[i]);
        i = i + 1;
        proof {
            assert(out@ =~= old(out)@ + a@.subrange(0, i as int));
        }
    }
    proof {
        assert(a@.subrange(0, 32) =~= a@);
    }
}

/// Reads 32 bytes at position `from` into an array.
pub fn read_bytes32(input: &Vec<u8>, from: usize) -> (a: [u8; 32])
    requires
        from + 32 <= input@.len(),
    ensures
        a@ == input@.subrange(from as int, from + 32),
{
    let _n: usize = input.len();
    let mut a: [u8; 32] = [0u8; 32];
    let mut i: usize = 0;
    while i < 32
        invariant
            i <= 32,
            from + 32 <= _n == input@.len(),
            a@.len() == 32,
            a@.subrange(0, i as int) == input@.subrange(from as int, from + i),
        decreases 32 - i,
    {
        a[i] = input[from + i];
        i = i + 1;
        proof {
            assert(a@.subrange(0, i as int) =~= input@.subrange(from as int, from + i));
        }
    }
    proof {
        assert(a@ =~= input@.subrange(from as int, from + 32));
    }
    a
}

/// Four adjacent subranges of `t` concatenate to the enclosing subrange.
pub proof fn lemma_concat_subranges(t: Seq<u8>, p0: int, p1: int, p2: int, p3: int, p4: int)
    requires
        0 <= p0 <= p1 <= p2 <= p3 <= p4 <= t.len(),
    ensures
        t.subrange(p0, p1) + t.subrange(p1, p2) + t.subrange(p2, p3) + t.subrange(p3, p4)
            == t.subrange(p0, p4),
{
    let ab = t.subrange(p0, p1) + t.subrange(p1, p2);
    assert(ab =~= t.subrange(p0, p2));
    let abc = ab + t.subrange(p2, p3);
    assert(abc =~= t.subrange(p0, p3));
    assert(abc + t.subrange(p3, p4) =~= t.subrange(p0, p4));
}

/// Appends every byte of `bytes`.
pub fn push_bytes(out: &mut Vec<u8>, bytes: &Vec<u8>)
    ensures
        final(out)@ == old(out)@ + bytes@,
{
    let mut i: usize = 0;
    let n: usize = bytes.len();
    while i < n
        invariant
            i <= n == bytes@.len(),
            out@ == old(out)@ + bytes@.subrange(0, i as int),
        decreases n - i,
    {
        out.push(bytes[i]);
        i = i + 1;
        proof {
            assert(out@ =~= old(out)@ + bytes@.subrange(0, i as int));
        }
    }
    proof {
        assert(bytes@.subrange(0, n as int) =~= bytes@);
    }
}

/// Copies the bytes from position `from` to the end of `input`.
pub fn read_rest(input: &Vec<u8>, from: usize) -> (v: Vec<u8>)
    requires
        from <= input@.len(),
    ensures
        v@ == input@.subrange(from as int, input@.len() as int),
{
    let n: usize = input.len();
    let mut v: Vec<u8> = Vec::new();
    let mut i: usize = from;
    while i < n
        invariant
            from <= i <= n == input@.len(),
            v@ == input@.subrange(from as int, i as int),
        decreases n - i,
    {
        v.push(input[i]);
        i = i + 1;
        proof {
            assert(v@ =~= input@.subrange(from as int, i as int));
        }
    }
    v
}

/// Whether two 32-byte values hold the same bytes.
pub fn bytes32_eq(a: &[u8; 32], b: &[u8; 32]) -> (r: bool)
    ensures
        r <==> a@ == b@,
{
    let mut i: usize = 0;
    while i < 32
        invariant
            i <= 32,
            forall|j: int| 0 <= j < i ==> a@[j] == b@[j],
        decreases 32 - i,
    {
        if a[i] != b[i] {
            return false;
        }
        i = i + 1;
    }
    proof {
        assert(a@ =~= b@);
    }
    true
}

} // verus!
