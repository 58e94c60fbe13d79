//! Reversible packing of a three-axis fitness summary into one symbol.
use vstd::prelude::*;
use crate::SCALE;

verus! {

/// First codepoint of the 256-symbol window that topology symbols occupy.
pub const SYMBOL_BASE: u32 = 0x2800;

/// Relies on `char::from_u32`: a value is a char exactly when it is a Unicode
/// scalar value, that is, at most 0x10FFFF and outside the surrogate range.
pub assume_specification[ std::char::from_u32 ](i: u32) -> (r: Option<char>)
    ensures
        r == (if i <= 0xD7FF || (0xE000 <= i && i <= 0x10FFFF) {
            Some(i as char)
        } else {
            None
        }),
;

/// Offset of a topology within the symbol window: three bits of curvature,
/// three of stability above them and two of direction on top.
pub open spec fn pack(kappa: int, sigma: int, delta: int) -> int {
    kappa + sigma * 8 + delta * 64
}

/// The axes held by an offset of the window, or `None` outside it.
pub open spec fn unpack(offset: int) -> Option<(int, int, int)> {
    if 0 <= offset < 256 {
        Some((offset % 8, (offset / 8) % 8, offset / 64))
    } else {
        None
    }
}

pub open spec fn curvature_phrase(kappa: int) -> Seq<char> {
    if kappa == 0 {
        "minimal deformation"@
    } else if kappa <= 2 {
        "slight change"@
    } else if kappa <= 4 {
        "moderate change"@
    } else if kappa <= 6 {
        "significant change"@
    } else {
        "maximum deformation"@
    }
}

pub open spec fn stability_phrase(sigma: int) -> Seq<char> {
    if sigma == 0 {
        "rock solid"@
    } else if sigma <= 2 {
        "stable"@
    } else if sigma <= 4 {
        "moderate volatility"@
    } else if sigma <= 6 {
        "high volatility"@
    } else {
        "extremely volatile"@
    }
}

pub open spec fn direction_phrase(delta: int) -> Seq<char> {
    if delta == 0 {
        "neutral/stable"@
    } else if delta == 1 {
        "positive drift"@
    } else if delta == 2 {
        "negative drift"@
    } else {
        "divergent/critical"@
    }
}

/// Curvature banded from the number of files touched.
pub open spec fn kappa_for_files(file_count: int) -> int {
    if file_count > 20 {
        7
    } else if file_count > 10 {
        6
    } else if file_count > 5 {
        4
    } else if file_count > 2 {
        2
    } else {
        1
    }
}

/// Stability accumulated from risk indicators and capped at 7.
pub open spec fn sigma_for_risk(line_changes: int, has_tests: bool, has_breaking: bool) -> int {
    let s = (if has_tests { 0int } else { 2int }) + (if has_breaking { 3int } else { 0int }) + (
    if line_changes > 500 {
        2int
    } else {
        0int
    });
    if s > 7 {
        7
    } else {
        s
    }
}

/// Direction banded from a fitness score given in millionths.
pub open spec fn delta_for_score(score: int) -> int {
    if score >= 900_000 {
        0
    } else if score >= 700_000 {
        1
    } else if score >= 500_000 {
        2
    } else {
        3
    }
}

/// The topology that a symbol decodes to, or `None` outside the window.
pub open spec fn decode_symbol(c: char) -> Option<FitnessTopology> {
    let off = c as int - SYMBOL_BASE;
    if 0 <= off < 256 {
        Some(FitnessTopology { kappa: (off % 8) as u8, sigma: ((off / 8) % 8) as u8, delta: (off / 64) as u8 })
    } else {
        None
    }
}

/// Compact summary of a change: curvature (scope), stability (risk) and
/// direction (trend).
#[derive(Debug, Clone, Copy, PartialEq, Eq, Structural)]
pub struct FitnessTopology {
    /// Curvature, 0 to 7.
    pub kappa: u8,
    /// Stability, 0 to 7.
    pub sigma: u8,
    /// Direction, 0 to 3: neutral, positive drift, negative drift, divergent.
    pub delta: u8,
}

impl FitnessTopology {
    pub open spec fn wf(&self) -> bool {
        self.kappa <= 7 && self.sigma <= 7 && self.delta <= 3
    }

    pub open spec fn offset(&self) -> int {
        pack(self.kappa as int, self.sigma as int, self.delta as int)
    }

    /// The symbol a well-formed topology is written as.
    pub open spec fn symbol(&self) -> char {
        (SYMBOL_BASE + self.offset()) as char
    }

    pub fn new(kappa: u8, sigma: u8, delta: u8) -> (r: Self)
        requires
            kappa <= 7,
            sigma <= 7,
            delta <= 3,
        ensures
            r.wf(),
            r.kappa == kappa,
            r.sigma == sigma,
            r.delta == delta,
    {
        FitnessTopology { kappa, sigma, delta }
    }

    pub open spec fn interpretation(&self) -> Seq<char> {
        curvature_phrase(self.kappa as int) + ", "@ + stability_phrase(self.sigma as int) + ", "@
            + direction_phrase(self.delta as int)
    }

    /// Derives a topology from the shape of a change; `fitness_score` is in
    /// millionths.
    pub fn from_analysis(
        file_count: usize,
        line_changes: usize,
        has_tests: bool,
        has_breaking: bool,
        fitness_score: u64,
    ) -> (r: Self)
        ensures
            r.wf(),
            r.kappa == kappa_for_files(file_count as int),
            r.sigma == sigma_for_risk(line_changes as int, has_tests, has_breaking),
            r.delta == delta_for_score(fitness_score as int),
    {
        let kappa: u8 = if file_count > 20 {
            7
        } else if file_count > 10 {
            6
        } else if file_count > 5 {
            4
        } else if file_count > 2 {
            2
        } else {
            1
        };
        let mut sigma: u8 = 0;
        if !has_tests {
            sigma += 2;
        }
        if has_breaking {
            sigma += 3;
        }
        if line_changes > 500 {
            sigma += 2;
        }
        if sigma > 7 {
            sigma = 7;
        }
        let delta: u8 = if fitness_score >= 9 * SCALE / 10 {
            0
        } else if fitness_score >= 7 * SCALE / 10 {
            1
        } else if fitness_score >= 5 * SCALE / 10 {
            2
        } else {
            3
        };
        FitnessTopology { kappa, sigma, delta }
    }

    /// A phrase for each axis, separated by commas.
    pub fn interpret(&self) -> (r: String)
        requires
            self.wf(),
        ensures
            r@ == self.interpretation(),
    {
        let curvature = if self.kappa == 0 {
            "minimal deformation"
        } else if self.kappa <= 2 {
            "slight change"
        } else if self.kappa <= 4 {
            "moderate change"
        } else if self.kappa <= 6 {
            "significant change"
        } else {
            "maximum deformation"
        };
        let stability = if self.sigma == 0 {
            "rock solid"
        } else if self.sigma <= 2 {
            "stable"
        } else if self.sigma <= 4 {
            "moderate volatility"
        } else if self.sigma <= 6 {
            "high volatility"
        } else {
            "extremely volatile"
        };
        let direction = if self.delta == 0 {
            "neutral/stable"
        } else if self.delta == 1 {
            "positive drift"
        } else if self.delta == 2 {
            "negative drift"
        } else {
            "divergent/critical"
        };
        let mut r = String::from_str(curvature);
        r.append(", ");
        r.append(stability);
        r.append(", ");
        r.append(direction);
        r
    }

    /// Encodes the topology as one symbol of the window.
    pub fn to_braille(&self) -> (c: char)
        requires
            self.wf(),
        ensures
            c == self.symbol(),
            c as int == SYMBOL_BASE + self.offset(),
    {
        let offset: u32 = self.kappa as u32 + (self.sigma as u32) * 8 + (self.delta as u32) * 64;
        let code: u32 = SYMBOL_BASE + offset;
        match std::char::from_u32(code) {
            Some(c) => c,
            None => {
                proof {
                    assert(false);
                }
                ' '
            },
        }
    }

    /// Decodes a symbol; `None` when it lies outside the window.
    pub fn from_braille(c: char) -> (r: Option<Self>)
        ensures
            r == decode_symbol(c),
            r is Some <==> SYMBOL_BASE <= c as int <= SYMBOL_BASE + 255,
            r matches Some(t) ==> t.wf() && unpack(c as int - SYMBOL_BASE) == Some(
                (t.kappa as int, t.sigma as int, t.delta as int),
            ),
    {
        let code = c as u32;
        if code < SYMBOL_BASE || code > SYMBOL_BASE + 255 {
            return None;
        }
        let offset: u32 = code - SYMBOL_BASE;
        let kappa = (offset % 8) as u8;
        let sigma = ((offset / 8) % 8) as u8;
        let delta = (offset / 64) as u8;
        Some(FitnessTopology { kappa, sigma, delta })
    }
}

/// Every in-range triple survives encoding and decoding unchanged.
pub proof fn lemma_round_trip(kappa: int, sigma: int, delta: int)
    requires
        0 <= kappa <= 7,
        0 <= sigma <= 7,
        0 <= delta <= 3,
    ensures
        unpack(pack(kappa, sigma, delta)) == Some((kappa, sigma, delta)),
{
    let o = pack(kappa, sigma, delta);
    vstd::arithmetic::div_mod::lemma_fundamental_div_mod_converse(o, 8, sigma + delta * 8, kappa);
    vstd::arithmetic::div_mod::lemma_fundamental_div_mod_converse(o / 8, 8, delta, sigma);
    vstd::arithmetic::div_mod::lemma_fundamental_div_mod_converse(o, 64, delta, kappa + sigma * 8);
}

/// Encoding a well-formed topology and decoding the symbol gives it back.
pub proof fn lemma_symbol_round_trip(t: FitnessTopology)
    requires
        t.wf(),
    ensures
        unpack(t.symbol() as int - SYMBOL_BASE) == Some((t.kappa as int, t.sigma as int, t.delta as int)),
        decode_symbol(t.symbol()) == Some(t),
{
    lemma_round_trip(t.kappa as int, t.sigma as int, t.delta as int);
}

} // verus!
