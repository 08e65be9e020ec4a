//! A single addressable preset of the instrument.

use vstd::prelude::*;

verus! {

/// Largest value a seven-bit MIDI data byte can carry.
pub const DATA_MAX: u8 = 127;

/// Mathematical model of a [`Patch`].
pub struct PatchView {
    pub program_change: nat,
    pub bank_msb: nat,
    pub bank_lsb: nat,
    pub name: Seq<char>,
    pub category: Seq<char>,
}

impl PatchView {
    /// The three numbers fit in seven bits and the name is not empty.
    pub open spec fn valid(self) -> bool {
        &&& self.program_change <= DATA_MAX
        &&& self.bank_msb <= DATA_MAX
        &&& self.bank_lsb <= DATA_MAX
        &&& self.name.len() > 0
    }
}

/// One preset: the program number, the two bank-select bytes, a display
/// name and a grouping label. A patch never changes after it is built and
/// always satisfies [`PatchView::valid`].
#[derive(Debug, PartialEq, Eq)]
pub struct Patch {
    program_change: u8,
    bank_msb: u8,
    bank_lsb: u8,
    name: String,
    category: String,
}

impl View for Patch {
    type V = PatchView;

    closed spec fn view(&self) -> PatchView {
        PatchView {
            program_change: self.program_change as nat,
            bank_msb: self.bank_msb as nat,
            bank_lsb: self.bank_lsb as nat,
            name: self.name@,
            category: self.category@,
        }
    }
}

impl Patch {
    #[verifier::type_invariant]
    spec fn inv(self) -> bool {
        self@.valid()
    }

    /// Builds a patch, or returns `None` when a number does not fit in
    /// seven bits or the name is empty.
    pub fn new(
        program_change: u8,
        bank_msb: u8,
        bank_lsb: u8,
        name: String,
        category: String,
    ) -> (made: Option<Patch>)
        ensures
            made.is_some() <==> (PatchView {
                program_change: program_change as nat,
                bank_msb: bank_msb as nat,
                bank_lsb: bank_lsb as nat,
                name: name@,
                category: category@,
            }).valid(),
            made matches Some(p) ==> p@ == (PatchView {
                program_change: program_change as nat,
                bank_msb: bank_msb as nat,
                bank_lsb: bank_lsb as nat,
                name: name@,
                category: category@,
            }),
    {
        if program_change > DATA_MAX || bank_msb > DATA_MAX || bank_lsb > DATA_MAX
            || name.as_str().is_empty() {
            None
        } else {
            Some(Patch { program_change, bank_msb, bank_lsb, name, category })
        }
    }

    /// The program number, 0 to 127.
    pub fn program_change(&self) -> (value: u8)
        ensures
            value == self@.program_change,
            value <= DATA_MAX,
    {
        proof {
            use_type_invariant(self);
        }
        self.program_change
    }

    /// The bank-select most significant byte, 0 to 127.
    pub fn bank_msb(&self) -> (value: u8)
        ensures
            value == self@.bank_msb,
            value <= DATA_MAX,
    {
        proof {
            use_type_invariant(self);
        }
        self.bank_msb
    }

    /// The bank-select least significant byte, 0 to 127.
    pub fn bank_lsb(&self) -> (value: u8)
        ensures
            value == self@.bank_lsb,
            value <= DATA_MAX,
    {
        proof {
            use_type_invariant(self);
        }
        self.bank_lsb
    }

    /// The display name; never empty.
    pub fn name(&self) -> (text: &str)
        ensures
            text@ == self@.name,
            text@.len() > 0,
    {
        proof {
            use_type_invariant(self);
        }
        self.name.as_str()
    }

    /// The grouping label; may be empty.
    pub fn category(&self) -> (text: &str)
        ensures
            text@ == self@.category,
    {
        self.category.as_str()
    }
}

/// The models of a sequence of patches, in the same order.
pub open spec fn views(patches: Seq<Patch>) -> Seq<PatchView> {
    patches.map_values(|p: Patch| p@)
}

impl Clone for Patch {
    fn clone(&self) -> (copy: Self)
        ensures
            copy@ == self@,
    {
        proof {
            use_type_invariant(self);
        }
        Patch {
            program_change: self.program_change,
            bank_msb: self.bank_msb,
            bank_lsb: self.bank_lsb,
            name: self.name.clone(),
            category: self.category.clone(),
        }
    }
}

} // verus!
