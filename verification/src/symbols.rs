//! The symbol resolver: a table of function ranges and line ranges, loaded
//! once, that turns addresses into source locations and back.

use vstd::prelude::*;

verus! {

/// A function of the program: its name and the addresses `low..high` of its code.
#[derive(Clone, Debug, PartialEq, Eq)]
pub struct Function {
    pub name: String,
    pub low: u64,
    pub high: u64,
}

/// A row of the line table: the addresses `low..high` come from one source line.
#[derive(Clone, Debug, PartialEq, Eq)]
pub struct LineEntry {
    pub file: String,
    pub number: u64,
    pub low: u64,
    pub high: u64,
}

/// A row of a line-number program as debugging information stores it: from
/// `address` on, up to the address of the next row, the code comes from
/// this line. A row that ends a sequence marks the first address behind it.
#[derive(Clone, Debug, PartialEq, Eq)]
pub struct LineRow {
    pub file: String,
    pub number: u64,
    pub address: u64,
    pub end_sequence: bool,
}

/// A source location together with the address that was looked up.
#[derive(Clone, Debug, PartialEq, Eq)]
pub struct Line {
    pub file: String,
    pub number: u64,
    pub address: u64,
}

/// Why the debugging information of a program could not be had.
#[derive(Clone, Copy, PartialEq, Eq, Structural, Debug)]
pub enum Error {
    ErrorOpeningFile,
    DwarfFormatError,
}

/// The index of the first function at or after `from` whose range holds `addr`.
pub open spec fn function_covering(fs: Seq<Function>, addr: u64, from: int) -> Option<int>
    decreases fs.len() - from,
{
    if from < 0 || from >= fs.len() {
        None
    } else if fs[from].low <= addr < fs[from].high {
        Some(from)
    } else {
        function_covering(fs, addr, from + 1)
    }
}

/// The index of the first function at or after `from` with the given name.
pub open spec fn function_named(fs: Seq<Function>, name: Seq<char>, from: int) -> Option<int>
    decreases fs.len() - from,
{
    if from < 0 || from >= fs.len() {
        None
    } else if fs[from].name@ == name {
        Some(from)
    } else {
        function_named(fs, name, from + 1)
    }
}

/// The index of the first line row at or after `from` whose range holds `addr`.
pub open spec fn line_covering(ls: Seq<LineEntry>, addr: u64, from: int) -> Option<int>
    decreases ls.len() - from,
{
    if from < 0 || from >= ls.len() {
        None
    } else if ls[from].low <= addr < ls[from].high {
        Some(from)
    } else {
        line_covering(ls, addr, from + 1)
    }
}

/// Whether a row belongs to the asked line, in the asked file if one is given.
pub open spec fn row_matches(row: LineEntry, file: Option<Seq<char>>, number: u64) -> bool {
    row.number == number && match file {
        Some(f) => row.file@ == f,
        None => true,
    }
}

/// The index of the first line row at or after `from` for the asked line.
pub open spec fn line_numbered(
    ls: Seq<LineEntry>,
    file: Option<Seq<char>>,
    number: u64,
    from: int,
) -> Option<int>
    decreases ls.len() - from,
{
    if from < 0 || from >= ls.len() {
        None
    } else if row_matches(ls[from], file, number) {
        Some(from)
    } else {
        line_numbered(ls, file, number, from + 1)
    }
}

/// Whether two functions share no address.
pub open spec fn apart(a: Function, b: Function) -> bool {
    a.high <= b.low || b.high <= a.low
}

/// What a table must satisfy to be usable: no range is empty, and no two
/// functions share an address.
pub open spec fn tables_well_formed(fs: Seq<Function>, ls: Seq<LineEntry>) -> bool {
    &&& forall|i: int| 0 <= i < fs.len() ==> (#[trigger] fs[i]).low < fs[i].high
    &&& forall|i: int, j: int| 0 <= i < j < fs.len() ==> apart(#[trigger] fs[i], #[trigger] fs[j])
    &&& forall|i: int| 0 <= i < ls.len() ==> (#[trigger] ls[i]).low < ls[i].high
}

/// The view of an optional string.
pub open spec fn text_of(s: Option<String>) -> Option<Seq<char>> {
    match s {
        Some(t) => Some(t@),
        None => None,
    }
}

/// The view of an optional line: file, line number and address.
pub open spec fn line_of(l: Option<Line>) -> Option<(Seq<char>, u64, u64)> {
    match l {
        Some(t) => Some((t.file@, t.number, t.address)),
        None => None,
    }
}

/// Whether the row with this index opens a range: it is followed by a row
/// at a higher address and does not itself end a sequence.
pub open spec fn opens_range(rows: Seq<LineRow>, index: int) -> bool {
    0 <= index && index + 1 < rows.len() && !rows[index].end_sequence && rows[index].address
        < rows[index + 1].address
}

/// The views of the line ranges that the rows from `from` on give: one
/// for each row that opens a range, in the order of the rows.
pub open spec fn ranges_of(rows: Seq<LineRow>, from: int) -> Seq<(Seq<char>, u64, u64, u64)>
    decreases rows.len() - from,
{
    if from < 0 || from + 1 >= rows.len() {
        Seq::empty()
    } else if opens_range(rows, from) {
        seq![(rows[from].file@, rows[from].number, rows[from].address, rows[from + 1].address)]
            + ranges_of(rows, from + 1)
    } else {
        ranges_of(rows, from + 1)
    }
}

/// The views of a list of line ranges.
pub open spec fn range_views(entries: Seq<LineEntry>) -> Seq<(Seq<char>, u64, u64, u64)> {
    Seq::new(entries.len(), |i: int| (entries[i].file@, entries[i].number, entries[i].low, entries[i].high))
}

/// Turns the rows of a line-number program into line ranges: each row
/// reaches up to the next, and rows that reach nowhere give nothing.
pub fn line_ranges(rows: &Vec<LineRow>) -> (entries: Vec<LineEntry>)
    ensures
        range_views(entries@) == ranges_of(rows@, 0),
        forall|i: int| 0 <= i < entries@.len() ==> (#[trigger] entries@[i]).low < entries@[i].high,
{
    let mut entries: Vec<LineEntry> = Vec::new();
    let mut i: usize = 0;
    proof {
        assert(range_views(entries@) + ranges_of(rows@, 0) =~= ranges_of(rows@, 0));
    }
    while i < rows.len() && i + 1 < rows.len()
        invariant
            i <= rows@.len(),
            ranges_of(rows@, 0) == range_views(entries@) + ranges_of(rows@, i as int),
            forall|k: int| 0 <= k < entries@.len() ==> (#[trigger] entries@[k]).low < entries@[k].high,
        decreases rows.len() - i,
    {
        let ghost rest = ranges_of(rows@, i + 1);
        if !rows[i].end_sequence && rows[i].address < rows[i + 1].address {
            let ghost before = entries@;
            entries.push(
                LineEntry {
                    file: rows[i].file.clone(),
                    number: rows[i].number,
                    low: rows[i].address,
                    high: rows[i + 1].address,
                },
            );
            proof {
                let first = (
                    rows@[i as int].file@,
                    rows@[i as int].number,
                    rows@[i as int].address,
                    rows@[i + 1].address,
                );
                assert(ranges_of(rows@, i as int) == seq![first] + rest);
                assert(range_views(entries@) =~= range_views(before).push(first));
                assert(range_views(before) + (seq![first] + rest) =~= range_views(before).push(
                    first,
                ) + rest);
            }
        } else {
            assert(ranges_of(rows@, i as int) == rest);
        }
        i = i + 1;
    }
    proof {
        assert(ranges_of(rows@, i as int) =~= Seq::empty());
        assert(range_views(entries@) + ranges_of(rows@, i as int) =~= range_views(entries@));
    }
    entries
}

/// The debugging information of one program.
pub struct DwarfData {
    functions: Vec<Function>,
    lines: Vec<LineEntry>,
}

impl DwarfData {
    /// The function table.
    pub closed spec fn functions(&self) -> Seq<Function> {
        self.functions@
    }

    /// The line table.
    pub closed spec fn lines(&self) -> Seq<LineEntry> {
        self.lines@
    }

    /// Holds of every table that `new` accepted.
    #[verifier::type_invariant]
    pub closed spec fn well_formed(&self) -> bool {
        tables_well_formed(self.functions@, self.lines@)
    }

    /// The name of the function whose code holds `addr`.
    pub open spec fn function_at(&self, addr: u64) -> Option<Seq<char>> {
        match function_covering(self.functions(), addr, 0) {
            Some(i) => Some(self.functions()[i].name@),
            None => None,
        }
    }

    /// The file, line number and address of the source line that `addr` comes from.
    pub open spec fn line_at(&self, addr: u64) -> Option<(Seq<char>, u64, u64)> {
        match line_covering(self.lines(), addr, 0) {
            Some(i) => Some((self.lines()[i].file@, self.lines()[i].number, addr)),
            None => None,
        }
    }

    /// The entry address of the first function with the given name.
    pub open spec fn address_of_function(&self, name: Seq<char>) -> Option<u64> {
        match function_named(self.functions(), name, 0) {
            Some(i) => Some(self.functions()[i].low),
            None => None,
        }
    }

    /// The first address of the first row for the asked line.
    pub open spec fn address_of_line(&self, file: Option<Seq<char>>, number: u64) -> Option<u64> {
        match line_numbered(self.lines(), file, number, 0) {
            Some(i) => Some(self.lines()[i].low),
            None => None,
        }
    }

    /// Builds the resolver from the two tables, or refuses them as malformed.
    pub fn new(functions: Vec<Function>, lines: Vec<LineEntry>) -> (loaded: Result<
        DwarfData,
        Error,
    >)
        ensures
            match loaded {
                Ok(data) => tables_well_formed(functions@, lines@) && data.functions()
                    == functions@ && data.lines() == lines@ && data.well_formed(),
                Err(e) => !tables_well_formed(functions@, lines@) && e == Error::DwarfFormatError,
            },
    {
        let mut i: usize = 0;
        while i < lines.len()
            invariant
                i <= lines.len(),
                forall|k: int| 0 <= k < i ==> (#[trigger] lines@[k]).low < lines@[k].high,
            decreases lines.len() - i,
        {
            if lines[i].low >= lines[i].high {
                return Err(Error::DwarfFormatError);
            }
            i = i + 1;
        }
        let mut i: usize = 0;
        while i < functions.len()
            invariant
                i <= functions.len(),
                forall|k: int| 0 <= k < i ==> (#[trigger] functions@[k]).low < functions@[k].high,
                forall|k: int, j: int|
                    0 <= k < j < i ==> apart(#[trigger] functions@[k], #[trigger] functions@[j]),
            decreases functions.len() - i,
        {
            if functions[i].low >= functions[i].high {
                return Err(Error::DwarfFormatError);
            }
            let mut k: usize = 0;
            while k < i
                invariant
                    k <= i < functions.len(),
                    forall|m: int| 0 <= m < k ==> apart(#[trigger] functions@[m], functions@[i as int]),
                decreases i - k,
            {
                if !(functions[k].high <= functions[i].low || functions[i].high
                    <= functions[k].low) {
                    assert(!apart(functions@[k as int], functions@[i as int]));
                    return Err(Error::DwarfFormatError);
                }
                k = k + 1;
            }
            i = i + 1;
        }
        Ok(DwarfData { functions, lines })
    }

    /// The name of the function that `addr` lies in, if it lies in one.
    pub fn get_function_from_addr(&self, addr: u64) -> (name: Option<String>)
        ensures
            text_of(name) == self.function_at(addr),
    {
        let mut i: usize = 0;
        while i < self.functions.len()
            invariant
                i <= self.functions@.len(),
                function_covering(self.functions@, addr, 0) == function_covering(
                    self.functions@,
                    addr,
                    i as int,
                ),
            decreases self.functions.len() - i,
        {
            if self.functions[i].low <= addr && addr < self.functions[i].high {
                return Some(self.functions[i].name.clone());
            }
            i = i + 1;
        }
        None
    }

    /// The source line that `addr` comes from, if the line table knows it.
    pub fn get_line_from_addr(&self, addr: u64) -> (line: Option<Line>)
        ensures
            line_of(line) == self.line_at(addr),
    {
        let mut i: usize = 0;
        while i < self.lines.len()
            invariant
                i <= self.lines@.len(),
                line_covering(self.lines@, addr, 0) == line_covering(self.lines@, addr, i as int),
            decreases self.lines.len() - i,
        {
            if self.lines[i].low <= addr && addr < self.lines[i].high {
                return Some(
                    Line {
                        file: self.lines[i].file.clone(),
                        number: self.lines[i].number,
                        address: addr,
                    },
                );
            }
            i = i + 1;
        }
        None
    }

    /// The address at which the asked line starts; with a file, only rows of
    /// that file count.
    pub fn get_addr_for_line(&self, file: Option<&str>, number: u64) -> (addr: Option<u64>)
        ensures
            addr == self.address_of_line(
                match file {
                    Some(f) => Some(f@),
                    None => None,
                },
                number,
            ),
    {
        let ghost wanted: Option<Seq<char>> = match file {
            Some(f) => Some(f@),
            None => None,
        };
        let mut i: usize = 0;
        while i < self.lines.len()
            invariant
                i <= self.lines@.len(),
                wanted == match file {
                    Some(f) => Some(f@),
                    None => None::<Seq<char>>,
                },
                line_numbered(self.lines@, wanted, number, 0) == line_numbered(
                    self.lines@,
                    wanted,
                    number,
                    i as int,
                ),
            decreases self.lines.len() - i,
        {
            let in_file = match file {
                Some(f) => crate::text::same_text(self.lines[i].file.as_str(), f),
                None => true,
            };
            if self.lines[i].number == number && in_file {
                return Some(self.lines[i].low);
            }
            i = i + 1;
        }
        None
    }

    /// The entry address of the function with the given name.
    pub fn get_addr_for_function(&self, name: &str) -> (addr: Option<u64>)
        ensures
            addr == self.address_of_function(name@),
    {
        let mut i: usize = 0;
        while i < self.functions.len()
            invariant
                i <= self.functions@.len(),
                function_named(self.functions@, name@, 0) == function_named(
                    self.functions@,
                    name@,
                    i as int,
                ),
            decreases self.functions.len() - i,
        {
            if crate::text::same_text(self.functions[i].name.as_str(), name) {
                return Some(self.functions[i].low);
            }
            i = i + 1;
        }
        None
    }
}

/// A search by name ends at a function that bears the name.
pub proof fn lemma_function_named_hit(fs: Seq<Function>, name: Seq<char>, from: int)
    requires
        0 <= from,
    ensures
        match function_named(fs, name, from) {
            Some(i) => from <= i < fs.len() && fs[i].name@ == name,
            None => forall|j: int| from <= j < fs.len() ==> (#[trigger] fs[j]).name@ != name,
        },
    decreases fs.len() - from,
{
    if from < fs.len() && fs[from].name@ != name {
        lemma_function_named_hit(fs, name, from + 1);
    }
}

/// A search by address ends at the first function whose range holds the address.
pub proof fn lemma_function_covering_hit(fs: Seq<Function>, addr: u64, from: int)
    requires
        0 <= from,
    ensures
        match function_covering(fs, addr, from) {
            Some(i) => from <= i < fs.len() && fs[i].low <= addr < fs[i].high && forall|j: int|
                from <= j < i ==> !((#[trigger] fs[j]).low <= addr < fs[j].high),
            None => forall|j: int|
                from <= j < fs.len() ==> !((#[trigger] fs[j]).low <= addr < fs[j].high),
        },
    decreases fs.len() - from,
{
    if from < fs.len() && !(fs[from].low <= addr < fs[from].high) {
        lemma_function_covering_hit(fs, addr, from + 1);
    }
}

/// Resolving a function's name to its entry address and that address back to
/// a function gives the name again.
pub proof fn lemma_function_round_trip(data: DwarfData, name: Seq<char>)
    requires
        data.well_formed(),
        data.address_of_function(name) is Some,
    ensures
        data.function_at(data.address_of_function(name).unwrap()) == Some(name),
{
    let fs = data.functions();
    lemma_function_named_hit(fs, name, 0);
    let i = function_named(fs, name, 0).unwrap();
    let addr = fs[i].low;
    lemma_function_covering_hit(fs, addr, 0);
    let found = function_covering(fs, addr, 0);
    assert(fs[i].low < fs[i].high);
    assert(found is Some);
    let j = found.unwrap();
    if j < i {
        assert(apart(fs[j], fs[i]));
    } else if i < j {
        assert(false);
    }
}

} // verus!
