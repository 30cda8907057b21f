//! Line colours for charts with one line per dimension.
use vstd::prelude::*;

verus! {

/// The colours of the plotters palette of 99% accessibility, as red, green and blue.
pub open spec fn palette99() -> Seq<(u8, u8, u8)> {
    seq![
        (230u8, 25u8, 75u8), (60, 180, 75), (255, 225, 25), (0, 130, 200), (245, 130, 48),
        (145, 30, 180), (70, 240, 240), (240, 50, 230), (210, 245, 60), (250, 190, 190),
        (0, 128, 128), (230, 190, 255), (170, 110, 40), (255, 250, 200), (128, 0, 0),
        (170, 255, 195), (128, 128, 0), (255, 215, 180), (0, 0, 128), (128, 128, 128),
        (0, 0, 0),
    ]
}

/// The colour that the palette gives to the line with the given index. The palette is walked
/// from its start and begins again when it is used up.
pub open spec fn palette_color(index: int) -> (u8, u8, u8) {
    palette99()[index % (palette99().len() as int)]
}

/// Picks a colour with `plotters::style::Palette99::pick` and reads it with
/// `plotters::style::Color::rgb`.
///
/// The contract claims that `pick` takes the index modulo the number of colours, that `rgb` gives
/// the entry of the palette's colour table at that place, and that the table is [`palette99`].
#[verifier::external_body]
pub(crate) fn pick_rgb(index: usize) -> (rgb: (u8, u8, u8))
    ensures
        rgb == palette_color(index as int),
{
    let color = <plotters::style::Palette99 as plotters::style::Palette>::pick(index);
    plotters::style::Color::rgb(&color)
}

} // verus!
