//! The palette: a fixed table from a colour index to a red, green and blue
//! level, running from dark blue over cyan and yellow to dark red.

use vstd::prelude::*;

verus! {

/// Number of entries of the palette.
pub const N_COLORS: u64 = 400;

/// One palette entry; every channel lies in `0..=255`.
#[derive(Clone, Copy, Debug, PartialEq, Eq, Structural)]
pub struct Colour {
    pub red: u64,
    pub blue: u64,
    pub green: u64,
}

/// The palette, one table per channel.
pub struct Colours {
    red: Vec<u64>,
    blue: Vec<u64>,
    green: Vec<u64>,
}

/// Red level of palette entry `c`.
pub open spec fn red_level(c: int) -> int {
    let n = N_COLORS as int;
    if c < (5 * n) / 8 && c >= (3 * n) / 8 {
        (255 * (c - (3 * n) / 8)) / (n / 4)
    } else if c < (3 * n) / 8 {
        0
    } else if c < (7 * n) / 8 {
        255
    } else {
        (255 * ((9 * n) / 8 - c)) / (n / 4)
    }
}

/// Green level of palette entry `c`.
pub open spec fn green_level(c: int) -> int {
    let n = N_COLORS as int;
    if c < n / 8 {
        0
    } else if c < (3 * n) / 8 {
        (255 * (c - n / 8)) / (n / 4)
    } else if c < (5 * n) / 8 {
        255
    } else if c < (7 * n) / 8 {
        (255 * ((7 * n) / 8 - c)) / (n / 4)
    } else {
        0
    }
}

/// Blue level of palette entry `c`.
pub open spec fn blue_level(c: int) -> int {
    let n = N_COLORS as int;
    if c < n / 8 {
        (255 * (c + n / 8)) / (n / 4)
    } else if c < (3 * n) / 8 {
        255
    } else if c < (5 * n) / 8 {
        255 - red_level(c)
    } else {
        0
    }
}

/// Every channel of every palette entry lies in `0..=255`.
pub proof fn lemma_levels_in_range(c: int)
    requires
        0 <= c < N_COLORS,
    ensures
        0 <= red_level(c) <= 255,
        0 <= green_level(c) <= 255,
        0 <= blue_level(c) <= 255,
{
    let n = N_COLORS as int;
    assert(n / 8 == 50 && n / 4 == 100 && (3 * n) / 8 == 150 && (5 * n) / 8 == 250 && (7 * n) / 8
        == 350 && (9 * n) / 8 == 450);
}

impl Colours {
    /// The three tables have one entry per palette index, each holding the
    /// level that the palette assigns to it.
    pub closed spec fn wf(&self) -> bool {
        &&& self.red@.len() == N_COLORS
        &&& self.green@.len() == N_COLORS
        &&& self.blue@.len() == N_COLORS
        &&& forall|c: int|
            0 <= c < N_COLORS ==> {
                &&& (#[trigger] self.red@[c]) == red_level(c)
                &&& self.green@[c] == green_level(c)
                &&& self.blue@[c] == blue_level(c)
            }
    }

    pub fn new() -> (colours: Colours)
        ensures
            colours.wf(),
    {
        let mut red: Vec<u64> = Vec::new();
        let mut blue: Vec<u64> = Vec::new();
        let mut green: Vec<u64> = Vec::new();
        let mut c: u64 = 0;
        while c < N_COLORS
            invariant
                c <= N_COLORS,
                red@.len() == c,
                green@.len() == c,
                blue@.len() == c,
                forall|k: int|
                    0 <= k < c ==> {
                        &&& (#[trigger] red@[k]) == red_level(k)
                        &&& green@[k] == green_level(k)
                        &&& blue@[k] == blue_level(k)
                    },
            decreases N_COLORS - c,
        {
            let r: u64;
            let g: u64;
            let b: u64;
            if c < N_COLORS / 8 {
                r = 0;
                g = 0;
                b = (255 * (c + N_COLORS / 8)) / (N_COLORS / 4);
            } else if c < (3 * N_COLORS) / 8 {
                r = 0;
                g = (255 * (c - N_COLORS / 8)) / (N_COLORS / 4);
                b = 255;
            } else if c < (5 * N_COLORS) / 8 {
                r = (255 * (c - (3 * N_COLORS) / 8)) / (N_COLORS / 4);
                g = 255;
                b = 255 - r;
            } else if c < (7 * N_COLORS) / 8 {
                r = 255;
                g = (255 * ((7 * N_COLORS) / 8 - c)) / (N_COLORS / 4);
                b = 0;
            } else {
                r = (255 * ((9 * N_COLORS) / 8 - c)) / (N_COLORS / 4);
                g = 0;
                b = 0;
            }
            red.push(r);
            green.push(g);
            blue.push(b);
            c += 1;
        }
        Colours { red, blue, green }
    }

    /// The palette entry at `index`.
    pub fn colour(&self, index: usize) -> (colour: Colour)
        requires
            self.wf(),
            index < N_COLORS,
        ensures
            colour.red == red_level(index as int),
            colour.green == green_level(index as int),
            colour.blue == blue_level(index as int),
            colour.red <= 255 && colour.green <= 255 && colour.blue <= 255,
    {
        proof {
            lemma_levels_in_range(index as int);
        }
        let red = self.red[index];
        let green = self.green[index];
        let blue = self.blue[index];
        Colour { red, green, blue }
    }
}

} // verus!
