//! The register file: a fixed bank of registers holding machine values.
//!
//! Loading resolves an operand — an immediate resolves to itself, a
//! register reference to the value stored at its index — and assigning
//! writes one register. Both are specified over the file's ghost view, a
//! sequence of optional value contents.
use vstd::prelude::*;
use crate::literal::{Literal, Value, ValueV, vv_wf};
use crate::operand::{Operand, OperandV, Register};

verus! {

/// What an operand resolves to against a register file: `None` when it
/// names a register that is out of range or not yet assigned.
pub open spec fn load_spec(rv: Seq<Option<ValueV>>, op: OperandV) -> Option<ValueV> {
    match op {
        OperandV::Immediate(l) => Some(ValueV::Literal(l)),
        OperandV::Register(i) => if 0 <= i < rv.len() {
            rv[i as int]
        } else {
            None
        },
    }
}

/// A fixed-size register file.
pub struct Registers {
    regs: Vec<Option<Value>>,
}

impl View for Registers {
    type V = Seq<Option<ValueV>>;

    closed spec fn view(&self) -> Seq<Option<ValueV>> {
        self.regs@.map_values(
            |o: Option<Value>|
                match o {
                    Some(v) => Some(v@),
                    None => None,
                },
        )
    }
}

impl Registers {
    /// Every stored value carries well-formed content.
    pub open spec fn wf(&self) -> bool {
        forall|i: int|
            0 <= i < self@.len() ==> (#[trigger] self@[i] matches Some(v) ==> vv_wf(v))
    }

    /// A file of `n` registers, all unassigned.
    pub fn new(n: usize) -> (r: Registers)
        ensures
            r@.len() == n,
            forall|i: int| 0 <= i < n ==> #[trigger] r@[i] is None,
            r.wf(),
    {
        let mut regs: Vec<Option<Value>> = Vec::new();
        let mut i: usize = 0;
        while i < n
            invariant
                i <= n,
                regs@.len() == i,
                forall|j: int| 0 <= j < i ==> #[trigger] regs@[j] is None,
            decreases n - i,
        {
            regs.push(None);
            i = i + 1;
        }
        let r = Registers { regs };
        proof {
            assert(forall|j: int| 0 <= j < n ==> #[trigger] r@[j] is None);
        }
        r
    }

    /// The number of registers.
    pub fn len(&self) -> (r: usize)
        ensures
            r == self@.len(),
    {
        self.regs.len()
    }

    /// Resolves an operand to a copy of its value, or `None` for an
    /// unassigned or out-of-range register reference.
    pub fn load(&self, op: &Operand) -> (r: Option<Value>)
        ensures
            r matches Some(v) ==> load_spec(self@, op@) == Some(v@),
            r is None ==> load_spec(self@, op@) is None,
    {
        match op {
            Operand::Immediate(l) => Some(Value::Literal(l.clone())),
            Operand::Register(reg) => {
                let i = reg.index as usize;
                if i < self.regs.len() {
                    match &self.regs[i] {
                        Some(v) => Some(v.clone()),
                        None => None,
                    }
                } else {
                    None
                }
            },
        }
    }

    /// Stores a value into a register; fails (leaving the file unchanged)
    /// exactly when the index is out of range.
    pub fn store(&mut self, reg: Register, value: Value) -> (r: bool)
        ensures
            r == (reg.index < old(self)@.len()),
            r ==> final(self)@ == old(self)@.update(reg.index as int, Some(value@)),
            !r ==> final(self)@ == old(self)@,
            old(self).wf() && value.wf() ==> final(self).wf(),
    {
        let i = reg.index as usize;
        if i < self.regs.len() {
            self.regs.set(i, Some(value));
            proof {
                assert(final(self)@ =~= old(self)@.update(reg.index as int, Some(value@)));
            }
            true
        } else {
            false
        }
    }

    /// Stores a bare literal, as instruction results are written.
    pub fn assign(&mut self, reg: Register, lit: Literal) -> (r: bool)
        ensures
            r == (reg.index < old(self)@.len()),
            r ==> final(self)@ == old(self)@.update(
                reg.index as int,
                Some(ValueV::Literal(lit@)),
            ),
            !r ==> final(self)@ == old(self)@,
            old(self).wf() && lit.wf() ==> final(self).wf(),
    {
        self.store(reg, Value::Literal(lit))
    }

    /// A copy of the value held at a register index, for inspection.
    pub fn value_at(&self, index: u32) -> (r: Option<Value>)
        ensures
            ({
                let s = if 0 <= index < self@.len() {
                    self@[index as int]
                } else {
                    None
                };
                &&& (r matches Some(v) ==> s == Some(v@))
                &&& (r is None ==> s is None)
            }),
    {
        let i = index as usize;
        if i < self.regs.len() {
            match &self.regs[i] {
                Some(v) => Some(v.clone()),
                None => None,
            }
        } else {
            None
        }
    }
}

} // verus!
