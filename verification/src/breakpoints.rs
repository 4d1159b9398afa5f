//! The breakpoint table: for each address at which the user asked to stop,
//! the instruction byte that the trap displaced, once it is known.

use std::collections::HashMap;
use vstd::prelude::*;

verus! {

/// The instruction byte that makes the processor trap.
pub const TRAP_BYTE: u8 = 0xcc;

/// What a breakpoint table holds: per address the displaced byte, or `None`
/// while it has not been captured yet, and the addresses in the order in
/// which they were asked for.
pub struct TableView {
    pub saved: Map<u64, Option<u8>>,
    pub order: Seq<u64>,
}

impl TableView {
    /// The table without breakpoints.
    pub open spec fn empty() -> TableView {
        TableView { saved: Map::empty(), order: Seq::empty() }
    }

    /// Every address is listed once, and exactly the listed ones have an entry.
    pub open spec fn well_formed(self) -> bool {
        &&& self.order.no_duplicates()
        &&& forall|a: u64| self.saved.contains_key(a) <==> self.order.contains(a)
    }

    /// The displaced byte on record for `addr`, if one was captured.
    pub open spec fn byte_at(self, addr: u64) -> Option<u8> {
        if self.saved.contains_key(addr) {
            self.saved[addr]
        } else {
            None
        }
    }

    /// The table after the user asked for `addr`: a new address gets a
    /// placeholder at the end, a known one keeps its place and its record.
    pub open spec fn requested(self, addr: u64) -> TableView {
        if self.saved.contains_key(addr) {
            self
        } else {
            TableView { saved: self.saved.insert(addr, None), order: self.order.push(addr) }
        }
    }

    /// The table after `byte` was written down for `addr`, whatever stood there.
    pub open spec fn recorded(self, addr: u64, byte: u8) -> TableView {
        TableView {
            saved: self.saved.insert(addr, Some(byte)),
            order: self.requested(addr).order,
        }
    }

    /// The table after `byte` was read at `addr` while the trap went in: it
    /// is written down unless a byte is on record already.
    pub open spec fn captured(self, addr: u64, byte: u8) -> TableView {
        if self.byte_at(addr) is Some {
            self
        } else {
            self.recorded(addr, byte)
        }
    }
}

/// Asking for an address keeps the table well formed.
pub proof fn lemma_requested_well_formed(table: TableView, addr: u64)
    requires
        table.well_formed(),
    ensures
        table.requested(addr).well_formed(),
        table.requested(addr).saved.contains_key(addr),
{
    if !table.saved.contains_key(addr) {
        let after = table.requested(addr);
        assert(!table.order.contains(addr));
        assert forall|a: u64| after.saved.contains_key(a) <==> after.order.contains(a) by {
            if a == addr {
                assert(after.order[table.order.len() as int] == addr);
            } else {
                if table.order.contains(a) {
                    let i = choose|i: int| 0 <= i < table.order.len() && table.order[i] == a;
                    assert(after.order[i] == a);
                }
                if after.order.contains(a) {
                    let i = choose|i: int| 0 <= i < after.order.len() && after.order[i] == a;
                    assert(table.order[i] == a);
                }
            }
        }
    }
}

/// Writing a byte down keeps the table well formed.
pub proof fn lemma_recorded_well_formed(table: TableView, addr: u64, byte: u8)
    requires
        table.well_formed(),
    ensures
        table.recorded(addr, byte).well_formed(),
        table.captured(addr, byte).well_formed(),
{
    lemma_requested_well_formed(table, addr);
    let asked = table.requested(addr);
    let after = table.recorded(addr, byte);
    assert forall|a: u64| after.saved.contains_key(a) <==> after.order.contains(a) by {
        assert(after.saved.contains_key(a) <==> asked.saved.contains_key(a));
    }
}

/// The breakpoints of a session.
pub struct BreakpointTable {
    saved: HashMap<u64, Option<u8>>,
    order: Vec<u64>,
}

impl View for BreakpointTable {
    type V = TableView;

    closed spec fn view(&self) -> TableView {
        TableView { saved: self.saved@, order: self.order@ }
    }
}

impl BreakpointTable {
    /// Holds of every table.
    #[verifier::type_invariant]
    pub open spec fn well_formed(self) -> bool {
        self@.well_formed()
    }

    /// A table without breakpoints.
    pub fn new() -> (table: BreakpointTable)
        ensures
            table@ == TableView::empty(),
            table@.well_formed(),
    {
        BreakpointTable { saved: HashMap::new(), order: Vec::new() }
    }

    /// How many addresses the table holds.
    pub fn len(&self) -> (n: usize)
        ensures
            n == self@.order.len(),
    {
        self.order.len()
    }

    /// Whether the user asked for `addr`.
    pub fn contains(&self, addr: u64) -> (known: bool)
        ensures
            known == self@.saved.contains_key(addr),
    {
        broadcast use vstd::std_specs::hash::group_hash_axioms;

        self.saved.contains_key(&addr)
    }

    /// The displaced byte on record for `addr`.
    pub fn byte_at(&self, addr: u64) -> (byte: Option<u8>)
        ensures
            byte == self@.byte_at(addr),
    {
        broadcast use vstd::std_specs::hash::group_hash_axioms;

        match self.saved.get(&addr) {
            Some(entry) => *entry,
            None => None,
        }
    }

    /// The address that was asked for as number `index`, counting from zero.
    pub fn address_at(&self, index: usize) -> (addr: Option<u64>)
        ensures
            addr == (if index < self@.order.len() {
                Some(self@.order[index as int])
            } else {
                None
            }),
    {
        if index < self.order.len() {
            Some(self.order[index])
        } else {
            None
        }
    }

    /// The addresses in the order in which they were asked for.
    pub fn addresses(&self) -> (list: Vec<u64>)
        ensures
            list@ == self@.order,
    {
        self.order.clone()
    }

    /// Notes that the user wants to stop at `addr`.
    pub fn request(&mut self, addr: u64)
        ensures
            final(self)@ == old(self)@.requested(addr),
    {
        broadcast use vstd::std_specs::hash::group_hash_axioms;

        proof {
            use_type_invariant(&*self);
            lemma_requested_well_formed(self@, addr);
        }
        if !self.saved.contains_key(&addr) {
            let mut taken = BreakpointTable::new();
            core::mem::swap(self, &mut taken);
            let BreakpointTable { mut saved, mut order } = taken;
            saved.insert(addr, None);
            order.push(addr);
            *self = BreakpointTable { saved, order };
        }
    }

    /// Writes `byte` down as the instruction byte that belongs at `addr`.
    pub fn record(&mut self, addr: u64, byte: u8)
        ensures
            final(self)@ == old(self)@.recorded(addr, byte),
    {
        broadcast use vstd::std_specs::hash::group_hash_axioms;

        proof {
            use_type_invariant(&*self);
            lemma_recorded_well_formed(self@, addr, byte);
        }
        let mut taken = BreakpointTable::new();
        core::mem::swap(self, &mut taken);
        let BreakpointTable { mut saved, mut order } = taken;
        if !saved.contains_key(&addr) {
            order.push(addr);
        }
        saved.insert(addr, Some(byte));
        *self = BreakpointTable { saved, order };
    }

    /// Writes `byte` down for `addr` unless a byte is on record already.
    pub fn capture(&mut self, addr: u64, byte: u8)
        ensures
            final(self)@ == old(self)@.captured(addr, byte),
    {
        if self.byte_at(addr).is_none() {
            self.record(addr, byte);
        }
    }
}

} // verus!
