//! Pixel colours with eight bits per channel.

use vstd::prelude::*;
use vstd::string::*;
use crate::raster::text::{append_decimal, decimal, decimal_width, lemma_decimal_len};

verus! {

/// A colour as red, green and blue levels from `0` (off) to `255` (full).
#[derive(Clone, Copy, Debug, PartialEq, Eq, Structural)]
pub struct Color(pub u8, pub u8, pub u8);

impl Color {
    /// The three levels in decimal, separated by single blanks.
    pub open spec fn ppm_text(self) -> Seq<char> {
        decimal(self.0 as nat) + seq![' '] + decimal(self.1 as nat) + seq![' '] + decimal(
            self.2 as nat,
        )
    }

    /// The colour as it is written into a plain-text image: `"r g b"`.
    pub fn ppm_string(&self) -> (text: String)
        ensures
            text@ == self.ppm_text(),
    {
        let mut text = String::new();
        self.append_to(&mut text);
        assert(text@ =~= self.ppm_text());
        text
    }

    /// Appends `"r g b"` to `out`.
    pub fn append_to(&self, out: &mut String)
        ensures
            final(out)@ == old(out)@ + self.ppm_text(),
    {
        proof {
            reveal_strlit(" ");
        }
        append_decimal(out, self.0 as usize);
        out.append(" ");
        append_decimal(out, self.1 as usize);
        out.append(" ");
        append_decimal(out, self.2 as usize);
        assert(" "@ =~= seq![' ']);
        assert(out@ =~= old(out)@ + self.ppm_text());
    }

    /// The room the colour takes on a line of a plain-text image: the
    /// length of `"r g b"` and of the blank that follows it.
    pub fn ppm_length(&self) -> (len: usize)
        ensures
            len == self.ppm_text().len() + 1,
            6 <= len <= 12,
    {
        proof {
            lemma_decimal_len(self.0 as nat);
            lemma_decimal_len(self.1 as nat);
            lemma_decimal_len(self.2 as nat);
        }
        decimal_width(self.0) + decimal_width(self.1) + decimal_width(self.2) + 3
    }
}

} // verus!
