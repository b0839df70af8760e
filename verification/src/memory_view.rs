//! The memory view window of the visual Jib computer: the base address typed
//! into it, the bytes it shows, and the text of its rows and cells.
use vstd::prelude::*;

use crate::numbers::{
    hex, hex_chars, lemma_hex_reads_back, parse_unsigned, parse_unsigned_chars, push_chars,
    unsigned_body, zero_pad, zero_padded,
};
use crate::text::{chars_of, sub_chars};

verus! {

/// Bytes shown in a row of a memory view.
pub const MEMORY_COLUMNS: usize = 8;

/// Rows of a memory view.
pub const MEMORY_ROWS: usize = 6;

/// Bytes shown in a memory view.
pub const MEMORY_SIZE: usize = 48;

/// What a memory view holds: its number among the views opened, its base
/// address, the text typed as the base address, the bytes read from memory
/// (`None` where none was read), and whether it is open.
pub struct MemoryViewState {
    pub id: usize,
    pub base: u32,
    pub base_text: Seq<char>,
    pub values: Seq<Option<u8>>,
    pub shown: bool,
}

/// The base address that `text` sets, starting from `base`: a `0x` prefix
/// followed by a hexadecimal number, else a decimal number; where `text` is
/// neither, the base stays.
pub open spec fn committed_base(base: u32, text: Seq<char>) -> u32 {
    let hex_value = if text.len() >= 2 && text[0] == '0' && text[1] == 'x' {
        parse_unsigned(text.skip(2), 16, u32::MAX as nat)
    } else {
        None
    };
    match hex_value {
        Some(n) => n as u32,
        None => match parse_unsigned(text, 10, u32::MAX as nat) {
            Some(n) => n as u32,
            None => base,
        },
    }
}

/// An address as the base address field shows it: `0x` and its
/// hexadecimal digits.
pub open spec fn address_text(a: u32) -> Seq<char> {
    "0x"@ + hex(a as nat)
}

/// The bytes a view shows after a read of `vals`: the read bytes in order,
/// `None` past the end of the read.
pub open spec fn filled_values(vals: Seq<u8>) -> Seq<Option<u8>> {
    Seq::new(
        MEMORY_SIZE as nat,
        |i: int|
            if i < vals.len() {
                Some(vals[i])
            } else {
                None
            },
    )
}

/// The label of row `row`: the address of its first byte, `0x` and eight
/// hexadecimal digits.
pub open spec fn row_label(base: u32, row: nat) -> Seq<char> {
    "0x"@ + zero_padded(hex((base + row * MEMORY_COLUMNS) as nat), 8)
}

/// The text of a cell: two hexadecimal digits, or `??` where nothing was read.
pub open spec fn cell_text(v: Option<u8>) -> Seq<char> {
    match v {
        Some(b) => zero_padded(hex(b as nat), 2),
        None => "??"@,
    }
}

/// A window that shows a part of the computer's memory.
pub struct MemoryViewWindow {
    id: usize,
    base: u32,
    base_str: String,
    values: Vec<Option<u8>>,
    shown: bool,
}

impl View for MemoryViewWindow {
    type V = MemoryViewState;

    closed spec fn view(&self) -> MemoryViewState {
        MemoryViewState {
            id: self.id,
            base: self.base,
            base_text: self.base_str@,
            values: self.values@,
            shown: self.shown,
        }
    }
}

/// Writes `a` as the base address field shows it.
fn address_string(a: u32) -> (r: String)
    ensures
        r@ == address_text(a),
{
    let mut s = String::from_str("0x");
    let digits = hex_chars(a);
    push_chars(&mut s, digits.as_slice());
    proof {
        reveal_strlit("0x");
    }
    s
}

impl MemoryViewWindow {
    #[verifier::type_invariant]
    closed spec fn inv(self) -> bool {
        self.values@.len() == MEMORY_SIZE
    }

    /// View number `id`, open, of address zero with nothing read.
    pub fn new(id: usize) -> (r: Self)
        ensures
            r@.id == id,
            r@.base == 0,
            r@.base_text == "0"@,
            r@.values == Seq::new(MEMORY_SIZE as nat, |i: int| None::<u8>),
            r@.shown,
    {
        let mut values: Vec<Option<u8>> = Vec::new();
        let mut i: usize = 0;
        while i < MEMORY_SIZE
            invariant
                i <= MEMORY_SIZE,
                values@ == Seq::new(i as nat, |j: int| None::<u8>),
            decreases MEMORY_SIZE - i,
        {
            values.push(None);
            assert(values@ =~= Seq::new((i + 1) as nat, |j: int| None::<u8>));
            i = i + 1;
        }
        MemoryViewWindow { id, base: 0, base_str: String::from_str("0"), values, shown: true }
    }

    /// The number of bytes the view shows.
    pub fn size(&self) -> (r: usize)
        ensures
            r == self@.values.len(),
            r == MEMORY_SIZE,
    {
        proof {
            use_type_invariant(self);
        }
        self.values.len()
    }

    /// The number of the view among those opened.
    pub fn id(&self) -> (r: usize)
        ensures
            r == self@.id,
    {
        self.id
    }

    /// The base address.
    pub fn base(&self) -> (r: u32)
        ensures
            r == self@.base,
    {
        self.base
    }

    /// The text typed as the base address.
    pub fn base_text(&self) -> (r: String)
        ensures
            r@ == self@.base_text,
    {
        self.base_str.clone()
    }

    /// Whether the window is open.
    pub fn shown(&self) -> (r: bool)
        ensures
            r == self@.shown,
    {
        self.shown
    }

    /// Opens or closes the window.
    pub fn set_shown(&mut self, shown: bool)
        ensures
            final(self)@ == (MemoryViewState { shown, ..old(self)@ }),
    {
        proof {
            use_type_invariant(&*self);
        }
        self.shown = shown;
    }

    /// Replaces the text typed as the base address.
    pub fn set_base_text(&mut self, text: String)
        ensures
            final(self)@ == (MemoryViewState { base_text: text@, ..old(self)@ }),
    {
        proof {
            use_type_invariant(&*self);
        }
        self.base_str = text;
    }

    /// The byte shown at `i`, if one was read.
    pub fn value_at(&self, i: usize) -> (r: Option<u8>)
        requires
            i < MEMORY_SIZE,
        ensures
            r == self@.values[i as int],
    {
        proof {
            use_type_invariant(self);
        }
        self.values[i]
    }

    /// Takes the typed text as the base address (see [`committed_base`]) and
    /// writes the base address back into the text.
    pub fn commit_base_text(&mut self)
        ensures
            final(self)@.base == committed_base(old(self)@.base, old(self)@.base_text),
            final(self)@.base_text == address_text(final(self)@.base),
            final(self)@.values == old(self)@.values,
            final(self)@.shown == old(self)@.shown,
            final(self)@.id == old(self)@.id,
    {
        proof {
            use_type_invariant(&*self);
        }
        let text = chars_of(self.base_str.as_str());
        let ghost t = text@;
        let mut hex_value: Option<u32> = None;
        if text.len() >= 2 && text[0] == '0' && text[1] == 'x' {
            let rest = sub_chars(text.as_slice(), 2, text.len());
            assert(rest@ =~= t.skip(2));
            hex_value = parse_unsigned_chars(rest.as_slice(), 16, u32::MAX);
        }
        let base = match hex_value {
            Some(n) => n,
            None => match parse_unsigned_chars(text.as_slice(), 10, u32::MAX) {
                Some(n) => n,
                None => self.base,
            },
        };
        self.base = base;
        self.base_str = address_string(base);
    }

    /// Shows the bytes of a read of memory at the base address: `vals` in
    /// order, nothing past its end.
    pub fn fill(&mut self, vals: &Vec<u8>)
        ensures
            final(self)@ == (MemoryViewState { values: filled_values(vals@), ..old(self)@ }),
    {
        let mut values: Vec<Option<u8>> = Vec::new();
        let mut i: usize = 0;
        while i < MEMORY_SIZE
            invariant
                i <= MEMORY_SIZE,
                values@ == filled_values(vals@).take(i as int),
            decreases MEMORY_SIZE - i,
        {
            if i < vals.len() {
                values.push(Some(vals[i]));
            } else {
                values.push(None);
            }
            assert(values@ =~= filled_values(vals@).take(i as int + 1));
            i = i + 1;
        }
        assert(values@ =~= filled_values(vals@));
        self.values = values;
    }

    /// The read that the view asks for: its base address and its size.
    pub fn request(&self) -> (r: (u32, u32))
        ensures
            r == (self@.base, MEMORY_SIZE as u32),
    {
        proof {
            use_type_invariant(self);
        }
        (self.base, self.values.len() as u32)
    }

    /// The label of row `row` (see [`row_label`]); the address of the row
    /// must be one.
    pub fn row_label(&self, row: usize) -> (r: String)
        requires
            row < MEMORY_ROWS,
            self@.base + row * MEMORY_COLUMNS <= u32::MAX,
        ensures
            r@ == row_label(self@.base, row as nat),
    {
        let a = self.base + (row * MEMORY_COLUMNS) as u32;
        let mut s = String::from_str("0x");
        let digits = zero_pad(hex_chars(a), 8);
        push_chars(&mut s, digits.as_slice());
        proof {
            reveal_strlit("0x");
        }
        s
    }

    /// The text of the cell for byte `i` (see [`cell_text`]).
    pub fn cell_text(&self, i: usize) -> (r: String)
        requires
            i < MEMORY_SIZE,
        ensures
            r@ == cell_text(self@.values[i as int]),
    {
        proof {
            use_type_invariant(self);
        }
        match self.values[i] {
            Some(b) => {
                let mut s = String::new();
                let digits = zero_pad(hex_chars(b as u32), 2);
                push_chars(&mut s, digits.as_slice());
                s
            },
            None => String::from_str("??"),
        }
    }
}

/// A base address written back into the base address field reads as the
/// same address, whatever the base was.
pub proof fn law_address_text_reads_back(base: u32, a: u32)
    ensures
        committed_base(base, address_text(a)) == a,
{
    let t = address_text(a);
    reveal_strlit("0x");
    lemma_hex_reads_back(a as nat);
    assert(t.skip(2) =~= hex(a as nat));
    assert(hex(a as nat)[0] != '+');
    assert(unsigned_body(hex(a as nat)) == hex(a as nat));
}

} // verus!
