use vstd::prelude::*;
use vstd::string::StringSliceAdditionalSpecFns;

verus! {

/// An image built into the firmware: its menu name and its one-bit frame.
/// This crate carries no built-in frames, so nothing constructs one; the
/// built-in images appear in the menu by name only (`image_name`), and
/// selecting one shows whatever frame was last loaded (blank at start).
pub struct ImageEntry {
    pub name: &'static str,
    pub data: &'static [u8; 5000],
}

/// Number of images built into the firmware.
pub const IMAGE_COUNT: usize = 2;

/// Menu name of built-in image `index`.
pub open spec fn image_name_text(index: int) -> Seq<char> {
    if index == 0 {
        "Photo 1"@
    } else {
        "Photo 2"@
    }
}

/// Menu name of built-in image `index`: "Photo 1", "Photo 2".
pub fn image_name(index: usize) -> (name: &'static str)
    requires
        index < IMAGE_COUNT,
    ensures
        name@ == image_name_text(index as int),
        name.spec_bytes().len() == 7,
{
    proof {
        reveal_strlit("Photo 1");
        reveal_strlit("Photo 2");
        vstd::string::is_ascii_spec_bytes("Photo 1");
        vstd::string::is_ascii_spec_bytes("Photo 2");
    }
    if index == 0 {
        "Photo 1"
    } else {
        "Photo 2"
    }
}

} // verus!
