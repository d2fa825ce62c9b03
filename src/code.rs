//! The code table, and what a completed sequence resolves to.

use vstd::prelude::*;

verus! {

/// What a completed sequence of bits stands for.
#[derive(Clone, Copy, Debug, PartialEq, Eq, Structural)]
pub enum Symbol {
    /// One modifier flag (a single bit of the report's modifier byte).
    Modifier(u8),
    /// A key code.
    Key(u8),
    /// A reserved or unassigned sequence.
    Invalid,
    /// A cancellation with no sequence pending.
    Cancel,
}

/// Maps sequences to keycodes.
///
/// A sequence is addressed by its position in a complete binary tree: the
/// root (the empty sequence) is 0, and a dot from `a` goes to `2a + 1`, a dash
/// to `2a + 2`. Zero marks an unassigned sequence.
pub const MAP: [u8; 127] = [
    0,   //
    8,   // . E
    23,  // - T
    12,  // .. I
    4,   // .- A
    17,  // -. N
    16,  // -- M
    22,  // ... S
    24,  // ..- U
    21,  // .-. R
    26,  // .-- W
    7,   // -.. D
    14,  // -.- K
    10,  // --. G
    18,  // --- O
    11,  // .... H
    25,  // ...- V
    9,   // ..-. F
    44,  // ..-- Space
    15,  // .-.. L
    42,  // .-.- BSp
    19,  // .--. P
    13,  // .--- J
    5,   // -... B
    27,  // -..- X
    6,   // -.-. C
    28,  // -.-- Y
    29,  // --.. Z
    20,  // --.- Q
    43,  // ---. Tab
    40,  // ---- Enter
    34,  // ..... 5
    33,  // ....- 4
    224, // ...-. LCtrl
    32,  // ...-- 3
    225, // ..-.. LShift
    41,  // ..-.- Esc
    45,  // ..--. -/_
    31,  // ..--- 2
    226, // .-... LAlt
    46,  // .-..- =/+
    47,  // .-.-. [/{
    48,  // .-.-- ]/}
    49,  // .--.. \/|
    51,  // .--.- ;/:
    52,  // .---. '/"
    30,  // .---- 1
    35,  // -.... 6
    53,  // -...- `/~
    54,  // -..-. ,/<
    55,  // -..-- ./>
    56,  // -.-.. //?
    76,  // -.-.- Delete
    101, // -.--. Applic (but actually Menu)
    0, 36, // --... 7
    0, 0, 0, 37, // ---.. 8
    0, 38, // ----. 9
    39, // ----- 0
    0, 79, // .....- Right
    82, // ....-. Up
    0, 81, // ...-.. Down
    0, 0, 0, 80, // ..-... Left
    0, 0, 0, 0, 0, 0, 0, 0, 77, // .-...- End
    75, // .-..-. PgUp
    0, 78, // .-.-.. PgDown
    0, 0, 0, 74, // .--... Home
    0, 0, 0, 0, 0, 0, 0, 0, 58, // -....- F1
    59, // -...-. F2
    60, // -...-- F3
    61, // -..-.. F4
    62, // -..-.- F5
    63, // -..--. F6
    64, // -..--- F7
    65, // -.-... F8
    66, // -.-..- F9
    67, // -.-.-. F10
    68, // -.-.-- F11
    69, // -.--.. F12
    0, 0, 0, 70,  // --.... PrtScr
    72,  // --...- Pause
    73,  // --..-. Insert
    154, // --..-- SysRq
    0, 0, 0, 0, 0, 57, // ---..- Caps Lock
    83, // ---.-. Num Lock
    71, // ---.-- Scroll Lock
    0, 0, 0, 0,
];

/// The symbol for a raw code: codes 224 to 231 are the eight modifier flags,
/// every other code is a key.
pub open spec fn symbol_of(x: u8) -> Symbol {
    if 224 <= x <= 231 {
        Symbol::Modifier(1u8 << ((x - 224) as u8))
    } else {
        Symbol::Key(x)
    }
}

impl From<u8> for Symbol {
    fn from(x: u8) -> (r: Symbol)
        ensures
            r == symbol_of(x),
    {
        if 224 <= x && x <= 231 {
            Symbol::Modifier(1u8 << (x - 224))
        } else {
            Symbol::Key(x)
        }
    }
}

impl vstd::std_specs::convert::FromSpecImpl<u8> for Symbol {
    open spec fn obeys_from_spec() -> bool {
        true
    }

    open spec fn from_spec(x: u8) -> Symbol {
        symbol_of(x)
    }
}

/// What the sequence at `address` resolves to: an assigned entry of the
/// table, a reserved sequence below 255, or from 255 on the raw code
/// `address - 255`.
pub open spec fn resolve(address: int) -> Symbol {
    if 0 <= address < 127 && MAP@[address] != 0 {
        symbol_of(MAP@[address])
    } else if address < 255 {
        Symbol::Invalid
    } else {
        symbol_of((address - 255) as u8)
    }
}

} // verus!
