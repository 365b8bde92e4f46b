//! Pixels for the glyphs of the menu texts.

use vstd::prelude::*;

verus! {

/// White pixels for a run of coverage values: for each value the bytes of
/// one pixel, red, green and blue full and the value as opacity.
pub open spec fn white_pixels(coverage: Seq<u8>) -> Seq<u8>
    decreases coverage.len(),
{
    if coverage.len() == 0 {
        Seq::empty()
    } else {
        white_pixels(coverage.drop_last()) + seq![255u8, 255u8, 255u8, coverage.last()]
    }
}

/// There are four bytes for each coverage value.
pub proof fn lemma_white_pixels_len(coverage: Seq<u8>)
    ensures
        white_pixels(coverage).len() == 4 * coverage.len(),
    decreases coverage.len(),
{
    if coverage.len() > 0 {
        lemma_white_pixels_len(coverage.drop_last());
    }
}

/// Replaces what the buffer holds by white pixels for the coverage values.
pub fn fill_white_pixels(out: &mut Vec<u8>, coverage: &[u8])
    ensures
        final(out)@ == white_pixels(coverage@),
{
    out.clear();
    let mut i: usize = 0;
    assert(coverage@.take(0) =~= Seq::<u8>::empty());
    while i < coverage.len()
        invariant
            i <= coverage.len(),
            out@ == white_pixels(coverage@.take(i as int)),
        decreases coverage.len() - i,
    {
        proof {
            assert(coverage@.take(i as int + 1).drop_last() =~= coverage@.take(i as int));
        }
        out.push(255);
        out.push(255);
        out.push(255);
        out.push(coverage[i]);
        assert(out@ =~= white_pixels(coverage@.take(i as int + 1)));
        i += 1;
    }
    assert(coverage@.take(i as int) =~= coverage@);
}

} // verus!
