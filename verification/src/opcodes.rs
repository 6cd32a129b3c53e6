//! The pipe-delimited opcode metadata table: `name|category|operands`
//! with optional machine-code and encoding columns. The table is parsed
//! and queried here but never consulted by the encoding path, which has
//! its own fixed repertoire.

use vstd::prelude::*;
use crate::chars::{chars_eq, copy_chars, lower, spec_lower, str_to_chars};
use crate::names::{spec_get, NameMap};
use crate::tokenizer::{spec_trim, trim_chars};

verus! {

/// One row of the table.
#[derive(Debug)]
pub struct OpcodeInfo {
    pub name: Vec<char>,
    pub category: Vec<char>,
    pub operands: Vec<Vec<char>>,
    pub machine_code: Option<Vec<char>>,
    pub encoding: Option<Vec<char>>,
}

/// The named instruction categories a caller can query.
#[derive(Debug, Clone, Copy, PartialEq, Eq, Structural)]
pub enum InstructionCategory {
    General,
    SystemCall,
    JumpCall,
    DataMovement,
    Arithmetic,
    Logic,
    Shift,
    String,
    IO,
    Other,
}

/// Table of opcode rows with a name index.
#[derive(Debug)]
pub struct OpcodeTable {
    pub opcodes: Vec<OpcodeInfo>,
    pub opcode_map: NameMap<Vec<usize>>,
}


/// Index of the next separator at or after `i`, or the end.
pub open spec fn spec_next_sep(s: Seq<char>, sep: char, i: int) -> int
    decreases s.len() - i,
{
    if i < 0 || i >= s.len() {
        s.len() as int
    } else if s[i] == sep {
        i
    } else {
        spec_next_sep(s, sep, i + 1)
    }
}

pub proof fn lemma_next_sep(s: Seq<char>, sep: char, i: int)
    requires
        0 <= i <= s.len(),
    ensures
        i <= spec_next_sep(s, sep, i) <= s.len(),
    decreases s.len() - i,
{
    if i < s.len() && s[i] != sep {
        lemma_next_sep(s, sep, i + 1);
    }
}

/// The pieces of `s[i..]` split on `sep`: separators dropped, empty
/// pieces kept, always at least one piece.
pub open spec fn spec_split_from(s: Seq<char>, sep: char, i: int) -> Seq<Seq<char>>
    decreases s.len() - i,
    via spec_split_from_dec
{
    let j = spec_next_sep(s, sep, i);
    if 0 <= i && j < s.len() {
        seq![s.subrange(i, j)] + spec_split_from(s, sep, j + 1)
    } else {
        seq![s.subrange(if 0 <= i && i <= s.len() { i } else { 0 }, s.len() as int)]
    }
}

#[via_fn]
proof fn spec_split_from_dec(s: Seq<char>, sep: char, i: int) {
    if 0 <= i && i <= s.len() {
        lemma_next_sep(s, sep, i);
    }
}

pub open spec fn spec_split(s: Seq<char>, sep: char) -> Seq<Seq<char>> {
    spec_split_from(s, sep, 0)
}

/// The parsed image of one table row.
pub ghost struct RowImage {
    pub name: Seq<char>,
    pub category: Seq<char>,
    pub operands: Seq<Seq<char>>,
    pub machine_code: Option<Seq<char>>,
    pub encoding: Option<Seq<char>>,
}

/// What one line of the table denotes: `None` for blank lines, comments
/// and rows with fewer than three columns; otherwise the trimmed,
/// lower-case-named row.
pub open spec fn spec_row(line: Seq<char>) -> Option<RowImage> {
    let t = spec_trim(line);
    if t.len() == 0 || t[0] == '#' {
        None
    } else {
        let parts = spec_split(t, '|');
        if parts.len() < 3 {
            None
        } else {
            Some(
                RowImage {
                    name: spec_lower(spec_trim(parts[0])),
                    category: spec_trim(parts[1]),
                    operands: spec_split(parts[2], ',').map_values(|p: Seq<char>| spec_trim(p)),
                    machine_code: if parts.len() > 3 && spec_trim(parts[3]).len() > 0 {
                        Some(spec_trim(parts[3]))
                    } else {
                        None
                    },
                    encoding: if parts.len() > 4 && spec_trim(parts[4]).len() > 0 {
                        Some(spec_trim(parts[4]))
                    } else {
                        None
                    },
                },
            )
        }
    }
}

/// The rows of the lines from index `i` on, in input order.
pub open spec fn spec_rows_of(lines: Seq<Seq<char>>, i: int) -> Seq<RowImage>
    decreases lines.len() - i,
{
    if i < 0 || i >= lines.len() {
        Seq::empty()
    } else {
        (match spec_row(lines[i]) {
            Some(row) => seq![row],
            None => Seq::<RowImage>::empty(),
        }) + spec_rows_of(lines, i + 1)
    }
}

/// The whole table a pipe-delimited text denotes.
pub open spec fn spec_table_rows(content: Seq<char>) -> Seq<RowImage> {
    spec_rows_of(spec_split(content, '\n'), 0)
}

/// A stored row carries exactly the image's fields.
pub open spec fn spec_row_matches(info: OpcodeInfo, row: RowImage) -> bool {
    &&& info.name@ == row.name
    &&& info.category@ == row.category
    &&& spec_piece_views(info.operands@) == row.operands
    &&& match (info.machine_code, row.machine_code) {
        (Some(m), Some(rm)) => m@ == rm,
        (None, None) => true,
        _ => false,
    }
    &&& match (info.encoding, row.encoding) {
        (Some(m), Some(rm)) => m@ == rm,
        (None, None) => true,
        _ => false,
    }
}

/// The indices, in order, of the rows bearing a name.
pub open spec fn spec_name_indices(rows: Seq<RowImage>, k: Seq<char>) -> Seq<int>
    decreases rows.len(),
{
    if rows.len() == 0 {
        Seq::empty()
    } else {
        let init = spec_name_indices(rows.drop_last(), k);
        if rows.last().name == k {
            init.push(rows.len() - 1)
        } else {
            init
        }
    }
}

/// The name index is exactly `spec_name_indices` of the stored rows.
pub open spec fn spec_index_exact(t: OpcodeTable) -> bool {
    forall|k: Seq<char>| ({
        let expected = spec_name_indices(spec_infos(t.opcodes@), k);
        match #[trigger] spec_get(t.opcode_map@, k) {
            Some(v) => expected.len() > 0 && v@.len() == expected.len() && (forall|x: int|
                0 <= x < v@.len() ==> (#[trigger] v@[x]) as int == expected[x]),
            None => expected.len() == 0,
        }
    })
}

/// The images of the stored rows.
pub open spec fn spec_infos(rows: Seq<OpcodeInfo>) -> Seq<RowImage> {
    rows.map_values(
        |info: OpcodeInfo| RowImage {
            name: info.name@,
            category: info.category@,
            operands: spec_piece_views(info.operands@),
            machine_code: match info.machine_code {
                Some(m) => Some(m@),
                None => None,
            },
            encoding: match info.encoding {
                Some(m) => Some(m@),
                None => None,
            },
        },
    )
}

/// The names, in order, of the rows whose category matches, ASCII
/// case-insensitively.
pub open spec fn spec_category_names(rows: Seq<OpcodeInfo>, cat: Seq<char>) -> Seq<Seq<char>>
    decreases rows.len(),
{
    if rows.len() == 0 {
        Seq::empty()
    } else {
        let rest = spec_category_names(rows.skip(1), cat);
        if spec_lower(rows[0].category@) == spec_lower(cat) {
            seq![rows[0].name@] + rest
        } else {
            rest
        }
    }
}

impl OpcodeTable {
    /// The name index points at rows bearing that name.
    pub open spec fn wf(&self) -> bool {
        &&& self.opcode_map.wf()
        &&& forall|k: Seq<char>|
            match #[trigger] spec_get(self.opcode_map@, k) {
                Some(v) => forall|x: int|
                    0 <= x < v@.len() ==> (#[trigger] v@[x]) < self.opcodes@.len()
                        && self.opcodes@[v@[x] as int].name@ == k,
                None => true,
            }
    }

    pub fn new() -> (t: Self)
        ensures
            t.opcodes@.len() == 0,
            t.opcode_map@.len() == 0,
            t.wf(),
            forall|k: Seq<char>| #[trigger] spec_get(t.opcode_map@, k) is None,
            spec_index_exact(t),
    {
        let t = Self { opcodes: Vec::new(), opcode_map: NameMap::new() };
        proof {
            assert forall|k: Seq<char>| #[trigger] spec_get(t.opcode_map@, k) is None by {}
            assert(spec_infos(t.opcodes@) =~= Seq::<RowImage>::empty());
            assert forall|k: Seq<char>| ({
                let expected = spec_name_indices(spec_infos(t.opcodes@), k);
                match #[trigger] spec_get(t.opcode_map@, k) {
                    Some(v) => expected.len() > 0 && v@.len() == expected.len() && (forall|x: int|
                        0 <= x < v@.len() ==> (#[trigger] v@[x]) as int == expected[x]),
                    None => expected.len() == 0,
                }
            }) by {}
        }
        t
    }

    /// Parses the table from the pipe-delimited text and always succeeds:
    /// one row per line that, after trimming, is nonempty, is no `#`
    /// comment and splits on `|` into at least three columns; the name is
    /// trimmed and lower-cased, the optional machine-code and encoding
    /// columns are kept when nonempty, input order is preserved, and the
    /// name index lists exactly the rows bearing each name, in order.
    pub fn from_string(content: &str) -> (r: Result<Self, crate::errors::ErrorType>)
        requires
            content@.len() < usize::MAX,
        ensures
            r is Ok,
            r matches Ok(t) ==> ({
                &&& t.wf()
                &&& spec_infos(t.opcodes@) == spec_table_rows(content@)
                &&& spec_index_exact(t)
            }),
    {
        let chars = str_to_chars(content);
        let lines = split_chars(&chars, '\n');
        let ghost spec_lines = spec_split(content@, '\n');
        let mut table = Self::new();
        let n = lines.len();
        let mut li: usize = 0;
        proof {
            assert(spec_infos(table.opcodes@) =~= Seq::<RowImage>::empty());
            assert(spec_infos(table.opcodes@) + spec_rows_of(spec_lines, 0) =~= spec_table_rows(
                content@,
            ));
        }
        while li < n
            invariant
                table.wf(),
                spec_index_exact(table),
                n == lines@.len(),
                li <= n,
                spec_piece_views(lines@) == spec_lines,
                n == spec_lines.len(),
                spec_infos(table.opcodes@) + spec_rows_of(spec_lines, li as int)
                    == spec_table_rows(content@),
            decreases n - li,
        {
            let ghost rows0 = spec_infos(table.opcodes@);
            let ghost cur_line = spec_lines[li as int];
            proof {
                assert(lines@[li as int]@ == spec_lines[li as int]);
            }
            let line = trim_chars(&lines[li]);
            li = li + 1;
            if line.len() == 0 {
                proof {
                    assert(spec_row(cur_line) is None);
                    assert(Seq::<RowImage>::empty() + spec_rows_of(spec_lines, li as int)
                        =~= spec_rows_of(spec_lines, li as int));
                }
                continue;
            }
            if line[0] == '#' {
                proof {
                    assert(spec_row(cur_line) is None);
                    assert(Seq::<RowImage>::empty() + spec_rows_of(spec_lines, li as int)
                        =~= spec_rows_of(spec_lines, li as int));
                }
                continue;
            }
            let parts = split_chars(&line, '|');
            if parts.len() < 3 {
                proof {
                    assert(spec_row(cur_line) is None);
                    assert(Seq::<RowImage>::empty() + spec_rows_of(spec_lines, li as int)
                        =~= spec_rows_of(spec_lines, li as int));
                }
                continue;
            }
            proof {
                assert(parts@[0]@ == spec_split(line@, '|')[0]);
                assert(parts@[1]@ == spec_split(line@, '|')[1]);
                assert(parts@[2]@ == spec_split(line@, '|')[2]);
            }
            let name = lower(&trim_chars(&parts[0]));
            let category = trim_chars(&parts[1]);
            let operand_parts = split_chars(&parts[2], ',');
            let ghost spec_ops = spec_split(spec_split(line@, '|')[2], ',').map_values(
                |p: Seq<char>| spec_trim(p),
            );
            let mut operands: Vec<Vec<char>> = Vec::new();
            let mut oi: usize = 0;
            proof {
                assert(spec_piece_views(operands@) =~= spec_ops.take(0));
            }
            while oi < operand_parts.len()
                invariant
                    oi <= operand_parts@.len(),
                    spec_piece_views(operand_parts@) == spec_split(
                        spec_split(line@, '|')[2],
                        ',',
                    ),
                    spec_ops == spec_split(spec_split(line@, '|')[2], ',').map_values(
                        |p: Seq<char>| spec_trim(p),
                    ),
                    operand_parts@.len() == spec_ops.len(),
                    spec_piece_views(operands@) == spec_ops.take(oi as int),
                decreases operand_parts@.len() - oi,
            {
                proof {
                    assert(spec_piece_views(operand_parts@)[oi as int] == operand_parts@[
                        oi as int]@);
                    assert(operand_parts@[oi as int]@ == spec_split(
                        spec_split(line@, '|')[2],
                        ',',
                    )[oi as int]);
                    assert(spec_ops[oi as int] == spec_trim(operand_parts@[oi as int]@));
                }
                let ghost prev_ops = operands@;
                operands.push(trim_chars(&operand_parts[oi]));
                oi = oi + 1;
                proof {
                    assert(operands@.len() == prev_ops.len() + 1);
                    assert(spec_piece_views(prev_ops).len() == prev_ops.len());
                    assert(prev_ops.len() == oi - 1);
                    assert(spec_piece_views(operands@).len() == operands@.len());
                    assert(spec_piece_views(operands@).len() == oi);
                    assert(operands@[oi - 1]@ == spec_ops[oi - 1]);
                    assert forall|j: int| 0 <= j < oi implies #[trigger] spec_piece_views(
                        operands@,
                    )[j] == spec_ops.take(oi as int)[j] by {
                        if j < oi - 1 {
                            assert(operands@[j] == prev_ops[j]);
                            assert(spec_piece_views(prev_ops)[j] == spec_ops.take(oi - 1)[j]);
                        }
                    }
                    assert(spec_piece_views(operands@) =~= spec_ops.take(oi as int));
                }
            }
            proof {
                assert(spec_ops.take(spec_ops.len() as int) =~= spec_ops);
            }
            let machine_code: Option<Vec<char>> = if parts.len() > 3 {
                proof {
                    assert(parts@[3]@ == spec_split(line@, '|')[3]);
                }
                let t = trim_chars(&parts[3]);
                if t.len() > 0 {
                    Some(t)
                } else {
                    None
                }
            } else {
                None
            };
            let encoding: Option<Vec<char>> = if parts.len() > 4 {
                proof {
                    assert(parts@[4]@ == spec_split(line@, '|')[4]);
                }
                let t = trim_chars(&parts[4]);
                if t.len() > 0 {
                    Some(t)
                } else {
                    None
                }
            } else {
                None
            };
            let index = table.opcodes.len();
            let info = OpcodeInfo {
                name: copy_chars(&name),
                category,
                operands,
                machine_code,
                encoding,
            };
            let ghost row = spec_row(cur_line)->Some_0;
            let ghost opcodes0 = table.opcodes@;
            let ghost map0 = table.opcode_map@;
            proof {
                assert(spec_row(cur_line) is Some);
                assert(spec_row_matches(info, row));
                assert(info.name@ == row.name);
                lemma_rows_snoc(opcodes0, info, row);
            }
            table.push_row(info, name, index);
            proof {
                assert(spec_infos(table.opcodes@) == rows0.push(row));
                assert(rows0.push(row) + spec_rows_of(spec_lines, li as int) =~= rows0 + (seq![
                    row,
                ] + spec_rows_of(spec_lines, li as int)));
                let rows1 = spec_infos(table.opcodes@);
                assert(rows1.drop_last() =~= rows0);
                assert forall|k: Seq<char>| ({
                    let expected = spec_name_indices(rows1, k);
                    match #[trigger] spec_get(table.opcode_map@, k) {
                        Some(v) => expected.len() > 0 && v@.len() == expected.len() && (forall|
                            x: int,
                        |
                            0 <= x < v@.len() ==> (#[trigger] v@[x]) as int == expected[x]),
                        None => expected.len() == 0,
                    }
                }) by {
                    let expected0 = spec_name_indices(rows0, k);
                    let expected = spec_name_indices(rows1, k);
                    if k == row.name {
                        assert(expected == expected0.push(rows0.len() as int));
                        match spec_get(table.opcode_map@, k) {
                            Some(v) => {
                                match spec_get(map0, k) {
                                    Some(p) => {
                                        assert(v@ == p@.push(index));
                                        assert forall|x: int| 0 <= x < v@.len() implies (
                                        #[trigger] v@[x]) as int == expected[x] by {
                                            if x < p@.len() {
                                                assert(p@[x] as int == expected0[x]);
                                            }
                                        }
                                    },
                                    None => {
                                        assert(expected0.len() == 0);
                                        assert(v@ == Seq::<usize>::empty().push(index));
                                    },
                                }
                            },
                            None => {
                                assert(false);
                            },
                        }
                    } else {
                        assert(expected == expected0);
                        match spec_get(table.opcode_map@, k) {
                            Some(v) => {
                                match spec_get(map0, k) {
                                    Some(p) => {
                                        assert(p == v);
                                    },
                                    None => {
                                        assert(false);
                                    },
                                }
                            },
                            None => {},
                        }
                    }
                }
            }
        }
        proof {
            assert(spec_rows_of(spec_lines, n as int) =~= Seq::<RowImage>::empty());
            assert(spec_infos(table.opcodes@) + Seq::<RowImage>::empty() =~= spec_infos(
                table.opcodes@,
            ));
        }
        Ok(table)
    }

    /// A copy of the indices already recorded for a mnemonic.
    fn current_indices(&self, name: &Vec<char>) -> (c: Vec<usize>)
        ensures
            match spec_get(self.opcode_map@, name@) {
                Some(v) => c@ == v@,
                None => c@ == Seq::<usize>::empty(),
            },
    {
        match self.opcode_map.get(name) {
            Some(existing) => {
                let mut c: Vec<usize> = Vec::new();
                let m = existing.len();
                let mut x: usize = 0;
                while x < m
                    invariant
                        x <= m,
                        m == existing@.len(),
                        c@ == existing@.take(x as int),
                    decreases m - x,
                {
                    c.push(existing[x]);
                    x = x + 1;
                    proof {
                        assert(c@ =~= existing@.take(x as int));
                    }
                }
                proof {
                    assert(existing@.take(m as int) =~= existing@);
                }
                c
            },
            None => Vec::new(),
        }
    }

    /// Appends one row and indexes it under its name: the new index goes
    /// to the end of the name's list, every other name is untouched.
    fn push_row(&mut self, info: OpcodeInfo, name: Vec<char>, index: usize)
        requires
            old(self).wf(),
            info.name@ == name@,
            index == old(self).opcodes@.len(),
        ensures
            final(self).wf(),
            final(self).opcodes@ == old(self).opcodes@.push(info),
            forall|k: Seq<char>| ({
                let before = spec_get(old(self).opcode_map@, k);
                let after = #[trigger] spec_get(final(self).opcode_map@, k);
                if k == name@ {
                    after matches Some(v) && v@ == (match before {
                        Some(p) => p@,
                        None => Seq::<usize>::empty(),
                    }).push(index)
                } else {
                    match (before, after) {
                        (Some(p), Some(q)) => p == q,
                        (None, None) => true,
                        _ => false,
                    }
                }
            }),
    {
        let ghost rows0 = self.opcodes@;
        let ghost map0 = self.opcode_map@;
        self.opcodes.push(info);
        let mut indices: Vec<usize> = self.current_indices(&name);
        indices.push(index);
        let ghost added_vec = indices;
        let ghost added = indices@;
        self.opcode_map.insert(name, indices);
        proof {
            assert forall|k: Seq<char>| ({
                let before = spec_get(old(self).opcode_map@, k);
                let after = #[trigger] spec_get(self.opcode_map@, k);
                if k == name@ {
                    after matches Some(v) && v@ == (match before {
                        Some(p) => p@,
                        None => Seq::<usize>::empty(),
                    }).push(index)
                } else {
                    match (before, after) {
                        (Some(p), Some(q)) => p == q,
                        (None, None) => true,
                        _ => false,
                    }
                }
            }) by {
                if k == name@ {
                    assert(spec_get(self.opcode_map@, k) == Some(added_vec));
                    assert(added_vec@ == added);
                }
            }
            assert forall|k: Seq<char>|
                match #[trigger] spec_get(self.opcode_map@, k) {
                    Some(v) => forall|x: int|
                        0 <= x < v@.len() ==> (#[trigger] v@[x]) < self.opcodes@.len()
                            && self.opcodes@[v@[x] as int].name@ == k,
                    None => true,
                } by {
                match spec_get(self.opcode_map@, k) {
                    Some(v) => {
                        assert forall|x: int|
                            0 <= x < v@.len() implies (#[trigger] v@[x]) < self.opcodes@.len()
                                && self.opcodes@[v@[x] as int].name@ == k by {
                            if k == name@ {
                                assert(v@ == added);
                                if x < added.len() - 1 {
                                    match spec_get(map0, k) {
                                        Some(pv) => {
                                            assert(added[x as int] == pv@[x as int]);
                                            assert(rows0[pv@[x as int] as int].name@ == k);
                                        },
                                        None => {
                                            assert(false);
                                        },
                                    }
                                } else {
                                    assert(added[x as int] == index);
                                }
                            } else {
                                assert(spec_get(self.opcode_map@, k) == spec_get(map0, k));
                                match spec_get(map0, k) {
                                    Some(pv) => {
                                        assert(rows0[pv@[x as int] as int].name@ == k);
                                    },
                                    None => {},
                                }
                            }
                        }
                    },
                    None => {},
                }
            }
        }
    }

    /// The row indices recorded for a mnemonic.
    pub fn lookup(&self, name: &Vec<char>) -> (r: Option<&Vec<usize>>)
        ensures
            match r {
                Some(v) => spec_get(self.opcode_map@, name@) == Some(*v),
                None => spec_get(self.opcode_map@, name@) is None,
            },
    {
        self.opcode_map.get(name)
    }

    /// The first recorded row for a mnemonic: with a table built by
    /// `from_string`, the round trip returns the first accepted line's
    /// parsed fields.
    pub fn get_info(&self, name: &Vec<char>) -> (r: Option<&OpcodeInfo>)
        requires
            self.wf(),
        ensures
            match r {
                Some(info) => info.name@ == name@ && (match spec_get(
                    self.opcode_map@,
                    name@,
                ) {
                    Some(v) => v@.len() > 0 && v@[0] < self.opcodes@.len() && *info
                        == self.opcodes@[v@[0] as int],
                    None => false,
                }),
                None => (match spec_get(self.opcode_map@, name@) {
                    Some(v) => v@.len() == 0,
                    None => true,
                }),
            },
    {
        match self.lookup(name) {
            Some(indices) => {
                if indices.len() > 0 {
                    let idx = indices[0];
                    proof {
                        match spec_get(self.opcode_map@, name@) {
                            Some(v) => {
                                assert(v@[0] < self.opcodes@.len() && self.opcodes@[v@[
                                    0] as int].name@ == name@);
                            },
                            None => {
                                assert(false);
                            },
                        }
                    }
                    Some(&self.opcodes[idx])
                } else {
                    None
                }
            },
            None => None,
        }
    }

    /// All mnemonics in a category, in table order; `None` when the
    /// category is empty.
    pub fn get_category(&self, category: &InstructionCategory) -> (r: Option<Vec<Vec<char>>>)
        ensures
            ({
                let expected = spec_category_names(
                    self.opcodes@,
                    spec_category_str(*category),
                );
                match r {
                    Some(v) => expected.len() > 0 && v@.len() == expected.len() && forall|j: int|
                        0 <= j < v@.len() ==> (#[trigger] v@[j])@ == expected[j],
                    None => expected.len() == 0,
                }
            }),
    {
        let category_str: Vec<char> = str_to_chars(category_name(category));
        proof {
            assert(category_str@ == spec_category_str(*category));
        }
        let cat_lower = lower(&category_str);
        let mut names: Vec<Vec<char>> = Vec::new();
        let n = self.opcodes.len();
        let mut i: usize = 0;
        proof {
            lemma_category_prefix(self.opcodes@, category_str@, 0);
        }
        while i < n
            invariant
                i <= n,
                n == self.opcodes@.len(),
                cat_lower@ == spec_lower(category_str@),
                category_str@ == spec_category_str(*category),
                names@.len() == spec_category_names(self.opcodes@.take(i as int), category_str@).len(),
                forall|j: int|
                    0 <= j < names@.len() ==> (#[trigger] names@[j])@ == spec_category_names(
                        self.opcodes@.take(i as int),
                        category_str@,
                    )[j],
            decreases n - i,
        {
            let row_cat = lower(&self.opcodes[i].category);
            if chars_eq(&row_cat, &cat_lower) {
                names.push(copy_chars(&self.opcodes[i].name));
            }
            proof {
                lemma_category_snoc(self.opcodes@, category_str@, i as int);
            }
            i = i + 1;
        }
        proof {
            assert(self.opcodes@.take(n as int) =~= self.opcodes@);
        }
        if names.len() == 0 {
            None
        } else {
            Some(names)
        }
    }
}

/// The canonical text of a category.
pub open spec fn spec_category_str(c: InstructionCategory) -> Seq<char> {
    match c {
        InstructionCategory::General => "general"@,
        InstructionCategory::SystemCall => "syscall"@,
        InstructionCategory::JumpCall => "jumpcall"@,
        InstructionCategory::DataMovement => "datamov"@,
        InstructionCategory::Arithmetic => "arith"@,
        InstructionCategory::Logic => "logic"@,
        InstructionCategory::Shift => "shift"@,
        InstructionCategory::String => "string"@,
        InstructionCategory::IO => "io"@,
        InstructionCategory::Other => "other"@,
    }
}

fn category_name(c: &InstructionCategory) -> (r: &'static str)
    ensures
        r@ == spec_category_str(*c),
{
    match c {
        InstructionCategory::General => "general",
        InstructionCategory::SystemCall => "syscall",
        InstructionCategory::JumpCall => "jumpcall",
        InstructionCategory::DataMovement => "datamov",
        InstructionCategory::Arithmetic => "arith",
        InstructionCategory::Logic => "logic",
        InstructionCategory::Shift => "shift",
        InstructionCategory::String => "string",
        InstructionCategory::IO => "io",
        InstructionCategory::Other => "other",
    }
}

/// The views of a piece list.
pub open spec fn spec_piece_views(ps: Seq<Vec<char>>) -> Seq<Seq<char>> {
    ps.map_values(|p: Vec<char>| p@)
}

/// Splits on a separator character; the separator is dropped and empty
/// pieces are kept.
fn split_chars(v: &Vec<char>, sep: char) -> (r: Vec<Vec<char>>)
    ensures
        spec_piece_views(r@) == spec_split(v@, sep),
{
    let mut out: Vec<Vec<char>> = Vec::new();
    let mut piece: Vec<char> = Vec::new();
    let mut i: usize = 0;
    let ghost mut piece_start: int = 0;
    proof {
        assert(piece@ =~= v@.subrange(0, 0));
        assert(spec_piece_views(out@) + spec_split_from(v@, sep, 0) =~= spec_split(v@, sep));
    }
    while i < v.len()
        invariant
            i <= v@.len(),
            0 <= piece_start <= i as int,
            piece@ == v@.subrange(piece_start, i as int),
            spec_next_sep(v@, sep, piece_start) == spec_next_sep(v@, sep, i as int),
            spec_piece_views(out@) + spec_split_from(v@, sep, piece_start) == spec_split(v@, sep),
        decreases v.len() - i,
    {
        let c = v[i];
        if c == sep {
            proof {
                assert(spec_next_sep(v@, sep, piece_start) == i as int);
                assert(spec_split_from(v@, sep, piece_start) == seq![
                    v@.subrange(piece_start, i as int),
                ] + spec_split_from(v@, sep, i + 1));
            }
            let ghost out_views = spec_piece_views(out@);
            out.push(piece);
            piece = Vec::new();
            proof {
                assert(spec_piece_views(out@) =~= out_views.push(v@.subrange(
                    piece_start,
                    i as int,
                )));
                assert(out_views.push(v@.subrange(piece_start, i as int)) + spec_split_from(
                    v@,
                    sep,
                    i + 1,
                ) =~= out_views + (seq![v@.subrange(piece_start, i as int)] + spec_split_from(
                    v@,
                    sep,
                    i + 1,
                )));
                piece_start = i + 1;
                assert(piece@ =~= v@.subrange(piece_start, i + 1));
            }
        } else {
            piece.push(c);
            proof {
                assert(piece@ =~= v@.subrange(piece_start, i + 1));
            }
        }
        i = i + 1;
    }
    proof {
        lemma_next_sep(v@, sep, piece_start);
        assert(spec_next_sep(v@, sep, piece_start) == v@.len());
        assert(spec_split_from(v@, sep, piece_start) == seq![
            v@.subrange(piece_start, v@.len() as int),
        ]);
        assert(piece@ =~= v@.subrange(piece_start, v@.len() as int));
    }
    let ghost out_views = spec_piece_views(out@);
    out.push(piece);
    proof {
        assert(spec_piece_views(out@) =~= out_views.push(piece@));
        assert(out_views.push(piece@) =~= out_views + seq![piece@]);
    }
    out
}

/// Empty prefix has no category names.
proof fn lemma_category_prefix(rows: Seq<OpcodeInfo>, cat: Seq<char>, i: int)
    ensures
        spec_category_names(rows.take(0), cat) == Seq::<Seq<char>>::empty(),
{
    assert(rows.take(0) =~= Seq::<OpcodeInfo>::empty());
}

/// Extending the prefix by one row appends its name when the category
/// matches.
proof fn lemma_category_snoc(rows: Seq<OpcodeInfo>, cat: Seq<char>, i: int)
    requires
        0 <= i < rows.len(),
    ensures
        spec_category_names(rows.take(i + 1), cat) == if spec_lower(rows[i].category@)
            == spec_lower(cat) {
            spec_category_names(rows.take(i), cat).push(rows[i].name@)
        } else {
            spec_category_names(rows.take(i), cat)
        },
    decreases i,
{
    if i == 0 {
        assert(rows.take(1) =~= seq![rows[0]]);
        assert(rows.take(0) =~= Seq::<OpcodeInfo>::empty());
        assert(seq![rows[0]].skip(1) =~= Seq::<OpcodeInfo>::empty());
        if spec_lower(rows[0].category@) == spec_lower(cat) {
            assert(spec_category_names(rows.take(1), cat) =~= spec_category_names(
                rows.take(0),
                cat,
            ).push(rows[0].name@));
        }
    } else {
        lemma_category_snoc(rows.skip(1), cat, i - 1);
        assert(rows.take(i + 1).skip(1) =~= rows.skip(1).take(i));
        assert(rows.take(i).skip(1) =~= rows.skip(1).take(i - 1));
        assert(rows.take(i + 1)[0] == rows[0]);
        assert(rows.take(i)[0] == rows[0]);
        assert(rows.skip(1)[i - 1] == rows[i]);
        if spec_lower(rows[0].category@) == spec_lower(cat) {
            if spec_lower(rows[i].category@) == spec_lower(cat) {
                assert(seq![rows[0].name@] + spec_category_names(rows.skip(1).take(i - 1), cat).push(
                    rows[i].name@,
                ) =~= (seq![rows[0].name@] + spec_category_names(rows.skip(1).take(i - 1), cat)).push(
                    rows[i].name@,
                ));
            }
        } else {
            if spec_lower(rows[i].category@) == spec_lower(cat) {
            }
        }
    }
}


/// Appending a row that matches an image appends that image.
proof fn lemma_rows_snoc(prior: Seq<OpcodeInfo>, info: OpcodeInfo, row: RowImage)
    requires
        spec_row_matches(info, row),
    ensures
        spec_infos(prior.push(info)) == spec_infos(prior).push(row),
{
    let image = RowImage {
        name: info.name@,
        category: info.category@,
        operands: spec_piece_views(info.operands@),
        machine_code: match info.machine_code {
            Some(m) => Some(m@),
            None => None,
        },
        encoding: match info.encoding {
            Some(m) => Some(m@),
            None => None,
        },
    };
    assert(image == row);
    assert(spec_infos(prior.push(info)) =~= spec_infos(prior).push(row));
}

} // verus!
