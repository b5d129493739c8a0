use vstd::prelude::*;

verus! {

/// `n` copies of `ch`.
pub open spec fn repeat(ch: char, n: nat) -> Seq<char> {
    Seq::new(n, |i: int| ch)
}

/// `s` centred in `width` columns: the padding is split in two, the extra
/// space going to the right; text at least `width` long stands alone.
pub open spec fn centered(s: Seq<char>, width: nat) -> Seq<char> {
    let pad: nat = if s.len() < width {
        (width - s.len()) as nat
    } else {
        0
    };
    repeat(' ', pad / 2) + s + repeat(' ', (pad - pad / 2) as nat)
}

/// Appends `n` copies of the single character of `unit` to `buf`.
pub fn push_repeat(buf: &mut String, unit: &str, n: usize)
    requires
        unit@.len() == 1,
    ensures
        final(buf)@ == old(buf)@ + repeat(unit@[0], n as nat),
{
    let mut i: usize = 0;
    while i < n
        invariant
            i <= n,
            unit@.len() == 1,
            buf@ == old(buf)@ + repeat(unit@[0], i as nat),
        decreases n - i,
    {
        buf.append(unit);
        i += 1;
        assert(buf@ =~= old(buf)@ + repeat(unit@[0], i as nat));
    }
}

/// Appends `s` centred in `width` columns to `buf`.
pub fn push_centered(buf: &mut String, s: &str, width: usize)
    ensures
        final(buf)@ == old(buf)@ + centered(s@, width as nat),
{
    let len = s.unicode_len();
    let pad: usize = if len < width {
        width - len
    } else {
        0
    };
    let space = " ";
    proof {
        reveal_strlit(" ");
    }
    push_repeat(buf, space, pad / 2);
    buf.append(s);
    push_repeat(buf, space, pad - pad / 2);
    assert(buf@ =~= old(buf)@ + centered(s@, width as nat));
}

} // verus!
