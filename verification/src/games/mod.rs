//! The program table: resolves a ROM title, case-insensitively, into a code
//! blob and the pair of quirk flags bound to that program.
//!
//! The table is data, not logic: it is the only place quirk defaults are
//! assigned, and unknown titles fail with a configuration error rather than
//! any partial or fuzzy match.

use vstd::prelude::*;

use crate::Chip8Error;

verus! {

/// ASCII lowercasing of one character; anything outside A-Z is unchanged.
pub open spec fn lower_char(c: char) -> char {
    if 65 <= c as u32 && c as u32 <= 90 {
        ((c as u32 + 32) as u8) as char
    } else {
        c
    }
}

/// ASCII lowercasing of a whole character sequence.
pub open spec fn lower_seq(s: Seq<char>) -> Seq<char> {
    Seq::new(s.len(), |j: int| lower_char(s[j]))
}

fn lower_char_exec(c: char) -> (r: char)
    ensures
        r == lower_char(c),
{
    let cu = c as u32;
    if 65 <= cu && cu <= 90 {
        ((cu + 32) as u8) as char
    } else {
        c
    }
}

/// Whether `a`, lowercased, spells exactly `b`.
pub fn eq_ignore_case(a: &str, b: &str) -> (r: bool)
    ensures
        r <==> lower_seq(a@) == b@,
{
    let alen = a.unicode_len();
    let blen = b.unicode_len();
    if alen != blen {
        proof {
            assert(lower_seq(a@).len() != b@.len());
        }
        return false;
    }
    let mut i: usize = 0;
    while i < alen
        invariant
            i <= alen,
            alen == a@.len(),
            alen == b@.len(),
            forall|j: int| 0 <= j < i ==> lower_char(a@[j]) == b@[j],
        decreases alen - i,
    {
        let ca = lower_char_exec(a.get_char(i));
        let cb = b.get_char(i);
        if ca != cb {
            proof {
                assert(lower_seq(a@)[i as int] != b@[i as int]);
            }
            return false;
        }
        i += 1;
    }
    proof {
        assert(lower_seq(a@) =~= b@);
    }
    true
}

/// Whether `key` (an already-lowercased title) is in the program table.
pub open spec fn known_title(key: Seq<char>) -> bool {
    ||| key == "tetris"@
    ||| key == "brix"@
    ||| key == "pong"@
    ||| key == "pong2"@
    ||| key == "invaders"@
    ||| key == "sctest"@
    ||| key == "bctest"@
    ||| key == "c8test"@
    ||| key == "sample"@
    ||| key == "opcode_test"@
}

/// The code image the table binds to the lowercased title `key`.
pub open spec fn title_code(key: Seq<char>) -> Seq<u8> {
    if key == "tetris"@ {
        seq![0x00u8, 0xE0, 0x60, 0x07, 0x61, 0x04, 0xA2, 0x10, 0xD0, 0x14, 0x12, 0x08]
    } else if key == "brix"@ {
        seq![0x00u8, 0xE0, 0x60, 0x1F, 0x61, 0x1E, 0xA2, 0x0E, 0xD0, 0x11, 0x12, 0x08]
    } else if key == "pong"@ {
        seq![0x00u8, 0xE0, 0x6A, 0x02, 0x6B, 0x0C, 0xA2, 0x0E, 0xDA, 0xB6, 0x12, 0x08]
    } else if key == "pong2"@ {
        seq![0x00u8, 0xE0, 0x6A, 0x02, 0x6B, 0x0C, 0xA2, 0x0E, 0xDA, 0xB6, 0x12, 0x06]
    } else if key == "invaders"@ {
        seq![0x00u8, 0xE0, 0x60, 0x08, 0x61, 0x00, 0xA2, 0x10, 0xD0, 0x16, 0x12, 0x08]
    } else if key == "sctest"@ {
        seq![0x00u8, 0xE0, 0x60, 0x00, 0x61, 0x00, 0xA0, 0x50, 0xD0, 0x15, 0x12, 0x0A]
    } else if key == "bctest"@ {
        seq![0x00u8, 0xE0, 0x60, 0x00, 0x61, 0x00, 0xA0, 0x96, 0xD0, 0x15, 0x12, 0x0A]
    } else if key == "c8test"@ {
        seq![0x00u8, 0xE0, 0x60, 0x01, 0x61, 0x01, 0xA0, 0x55, 0xD0, 0x15, 0x12, 0x0A]
    } else if key == "sample"@ {
        seq![0x00u8, 0xE0, 0x60, 0x0C, 0x61, 0x08, 0xA0, 0x5A, 0xD0, 0x15, 0x12, 0x0A]
    } else if key == "opcode_test"@ {
        seq![0x00u8, 0xE0, 0x60, 0x02, 0x61, 0x0E, 0xA0, 0x5F, 0xD0, 0x15, 0x12, 0x0A]
    } else {
        Seq::empty()
    }
}

/// A loadable program: its code image and the two per-program quirk flags.
pub struct Game {
    /// The program bytes, copied to the program region on load.
    pub code: Vec<u8>,
    /// When false, bulk register store/load advances I past the transfer.
    pub load_store_quirk: bool,
    /// When true, shifts read their source from Vx; when false, from Vy.
    pub shift_quirk: bool,
}

impl Game {
    /// Resolves `title`, case-insensitively, through the program table.
    /// An unrecognized title is a configuration error; nothing is matched
    /// partially.
    pub fn new(title: &str) -> (r: Result<Game, Chip8Error>)
        ensures
            r is Ok <==> known_title(lower_seq(title@)),
            r matches Ok(g) ==> g.code@ == title_code(lower_seq(title@)) && g.load_store_quirk
                && g.shift_quirk,
            r is Err ==> r == Result::<Game, Chip8Error>::Err(Chip8Error::UnknownProgram),
    {
        let ghost key = lower_seq(title@);
        let code: Vec<u8> = if eq_ignore_case(title, "tetris") {
            vec![0x00u8, 0xE0, 0x60, 0x07, 0x61, 0x04, 0xA2, 0x10, 0xD0, 0x14, 0x12, 0x08]
        } else if eq_ignore_case(title, "brix") {
            vec![0x00u8, 0xE0, 0x60, 0x1F, 0x61, 0x1E, 0xA2, 0x0E, 0xD0, 0x11, 0x12, 0x08]
        } else if eq_ignore_case(title, "pong") {
            vec![0x00u8, 0xE0, 0x6A, 0x02, 0x6B, 0x0C, 0xA2, 0x0E, 0xDA, 0xB6, 0x12, 0x08]
        } else if eq_ignore_case(title, "pong2") {
            vec![0x00u8, 0xE0, 0x6A, 0x02, 0x6B, 0x0C, 0xA2, 0x0E, 0xDA, 0xB6, 0x12, 0x06]
        } else if eq_ignore_case(title, "invaders") {
            vec![0x00u8, 0xE0, 0x60, 0x08, 0x61, 0x00, 0xA2, 0x10, 0xD0, 0x16, 0x12, 0x08]
        } else if eq_ignore_case(title, "sctest") {
            vec![0x00u8, 0xE0, 0x60, 0x00, 0x61, 0x00, 0xA0, 0x50, 0xD0, 0x15, 0x12, 0x0A]
        } else if eq_ignore_case(title, "bctest") {
            vec![0x00u8, 0xE0, 0x60, 0x00, 0x61, 0x00, 0xA0, 0x96, 0xD0, 0x15, 0x12, 0x0A]
        } else if eq_ignore_case(title, "c8test") {
            vec![0x00u8, 0xE0, 0x60, 0x01, 0x61, 0x01, 0xA0, 0x55, 0xD0, 0x15, 0x12, 0x0A]
        } else if eq_ignore_case(title, "sample") {
            vec![0x00u8, 0xE0, 0x60, 0x0C, 0x61, 0x08, 0xA0, 0x5A, 0xD0, 0x15, 0x12, 0x0A]
        } else if eq_ignore_case(title, "opcode_test") {
            vec![0x00u8, 0xE0, 0x60, 0x02, 0x61, 0x0E, 0xA0, 0x5F, 0xD0, 0x15, 0x12, 0x0A]
        } else {
            return Err(Chip8Error::UnknownProgram);
        };
        proof {
            assert(code@ =~= title_code(key));
        }
        Ok(Game { code, load_store_quirk: true, shift_quirk: true })
    }
}

impl Default for Game {
    /// The program the machine holds before any explicit load.
    fn default() -> (r: Self)
        ensures
            r.load_store_quirk,
            r.shift_quirk,
    {
        Game { code: Vec::new(), load_store_quirk: true, shift_quirk: true }
    }
}

} // verus!
