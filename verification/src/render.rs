use vstd::prelude::*;

verus! {

/// The lower-case hex digit of a value below 16.
pub open spec fn hex_digit(n: u8) -> u8 {
    if n < 10 {
        (48 + n) as u8
    } else {
        (87 + n) as u8
    }
}

/// The lower-case hex form of a byte string, two digits per byte.
pub open spec fn hex_bytes(s: Seq<u8>) -> Seq<u8>
    decreases s.len(),
{
    if s.len() == 0 {
        Seq::empty()
    } else {
        seq![hex_digit(s[0] / 16), hex_digit(s[0] % 16)] + hex_bytes(s.drop_first())
    }
}

/// Hex distributes over appending one byte at the end.
proof fn lemma_hex_bytes_snoc(s: Seq<u8>, b: u8)
    ensures
        hex_bytes(s.push(b)) == hex_bytes(s) + seq![hex_digit(b / 16), hex_digit(b % 16)],
    decreases s.len(),
{
    if s.len() == 0 {
        let p = s.push(b);
        assert(p[0] == b);
        assert(p.drop_first() =~= Seq::<u8>::empty());
        assert(hex_bytes(p) == seq![hex_digit(p[0] / 16), hex_digit(p[0] % 16)] + hex_bytes(
            p.drop_first(),
        ));
        assert(hex_bytes(Seq::<u8>::empty()) == Seq::<u8>::empty());
        assert(hex_bytes(p) =~= hex_bytes(s) + seq![hex_digit(b / 16), hex_digit(b % 16)]);
    } else {
        assert(s.push(b)[0] == s[0]);
        assert(s.push(b).drop_first() =~= s.drop_first().push(b));
        lemma_hex_bytes_snoc(s.drop_first(), b);
        assert(hex_bytes(s.push(b)) =~= hex_bytes(s) + seq![hex_digit(b / 16), hex_digit(b % 16)]);
    }
}

/// Hex of a byte string is twice as long.
pub proof fn lemma_hex_bytes_len(s: Seq<u8>)
    ensures
        hex_bytes(s).len() == 2 * s.len(),
    decreases s.len(),
{
    if s.len() == 0 {
    } else {
        lemma_hex_bytes_len(s.drop_first());
    }
}

/// Appends the lower-case hex form of `bytes` to `out`.
pub fn push_hex(out: &mut Vec<u8>, bytes: &[u8])
    ensures
        final(out)@ == old(out)@ + hex_bytes(bytes@),
{
    let n = bytes.len();
    let mut i: usize = 0;
    proof {
        assert(bytes@.take(0) =~= Seq::<u8>::empty());
        assert(out@ =~= old(out)@ + hex_bytes(bytes@.take(0)));
    }
    while i < n
        invariant
            i <= n,
            n == bytes@.len(),
            out@ == old(out)@ + hex_bytes(bytes@.take(i as int)),
        decreases n - i,
    {
        let b = *vstd::slice::slice_index_get(bytes, i);
        let hi = b / 16;
        let lo = b % 16;
        out.push(if hi < 10 {
            48 + hi
        } else {
            87 + hi
        });
        out.push(if lo < 10 {
            48 + lo
        } else {
            87 + lo
        });
        proof {
            assert(bytes@.take(i + 1) =~= bytes@.take(i as int).push(bytes@[i as int]));
            lemma_hex_bytes_snoc(bytes@.take(i as int), bytes@[i as int]);
            assert(out@ =~= old(out)@ + hex_bytes(bytes@.take(i + 1)));
        }
        i += 1;
    }
    proof {
        assert(bytes@.take(n as int) =~= bytes@);
    }
}

/// The lower-case hex form of a byte string.
pub fn to_hex(bytes: &[u8]) -> (r: Vec<u8>)
    ensures
        r@ == hex_bytes(bytes@),
{
    let mut out: Vec<u8> = Vec::new();
    push_hex(&mut out, bytes);
    proof {
        assert(out@ =~= hex_bytes(bytes@));
    }
    out
}

/// The decimal digits of `n`, most significant first.
pub open spec fn dec_bytes(n: nat) -> Seq<u8>
    decreases n,
{
    if n < 10 {
        seq![(48 + n) as u8]
    } else {
        dec_bytes(n / 10) + seq![(48 + (n % 10)) as u8]
    }
}

/// Appends the decimal form of `v` to `out`.
pub fn push_decimal(out: &mut Vec<u8>, v: u64)
    ensures
        final(out)@ == old(out)@ + dec_bytes(v as nat),
    decreases v,
{
    if v < 10 {
        out.push(48 + (v as u8));
        proof {
            assert(out@ =~= old(out)@ + dec_bytes(v as nat));
        }
    } else {
        push_decimal(out, v / 10);
        out.push(48 + ((v % 10) as u8));
        proof {
            assert(out@ =~= old(out)@ + dec_bytes(v as nat));
        }
    }
}

} // verus!
