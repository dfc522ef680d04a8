//! Assembler and linker: turns assembly units into an executable image with
//! resolved relative jump offsets and interned data addresses.
use vstd::prelude::*;
use crate::cpu::instructions::{w3, DataOp, FlowOp, Instruction, RegOrImm, Register};
use crate::text::{
    chars_eq, is_ws, is_ws_char, split_whitespace, split_ws, str_chars, tok_scan, tok_step, views,
};

verus! {

/// Where the data segment starts in memory.
pub const DATA_INIT_ADDRESS: u32 = 500;

/// Why a set of units could not be assembled. Each names the offending line,
/// counted from 0 over all units joined in order.
#[derive(Debug, PartialEq, Eq, Structural, Clone, Copy)]
pub enum AsmError {
    /// Not an instruction, or operands of the wrong kind or number.
    Parse { line: usize },
    /// A data directive other than `.stringz LABEL text`.
    InvalidData { line: usize },
    /// A jump or call to a label that no line defines.
    UnresolvedLabel { line: usize },
    /// `LEA` of a data label that no directive defines.
    UnresolvedData { line: usize },
    /// A code label defined twice.
    DuplicateSymbol { line: usize },
    /// A data label defined twice.
    DuplicateData { line: usize },
}

/// What a line of assembly is.
#[derive(Debug, PartialEq, Eq, Structural, Clone, Copy)]
pub enum LineKind {
    Blank,
    Label,
    Data,
    Code,
}

pub open spec fn has_colon(line: Seq<char>) -> bool {
    exists|i: int| 0 <= i < line.len() && line[i] == ':'
}

pub open spec fn line_kind(line: Seq<char>) -> LineKind {
    if has_colon(line) {
        LineKind::Label
    } else if split_ws(line).len() == 0 {
        LineKind::Blank
    } else if split_ws(line)[0][0] == '.' {
        LineKind::Data
    } else {
        LineKind::Code
    }
}

/// The name a label line defines: its characters without colons or whitespace.
pub open spec fn label_of(line: Seq<char>) -> Seq<char>
    decreases line.len(),
{
    if line.len() == 0 {
        Seq::empty()
    } else if line.last() == ':' || is_ws(line.last()) {
        label_of(line.drop_last())
    } else {
        label_of(line.drop_last()).push(line.last())
    }
}

/// The value bound to `name`, if any.
pub open spec fn lookup(entries: Seq<(Seq<char>, u32)>, name: Seq<char>) -> Option<u32>
    decreases entries.len(),
{
    if entries.len() == 0 {
        None
    } else if entries.last().0 == name {
        Some(entries.last().1)
    } else {
        lookup(entries.drop_last(), name)
    }
}

/// The words a zero-terminated string occupies.
pub open spec fn stringz(text: Seq<char>) -> Seq<i32> {
    Seq::new(text.len(), |i: int| text[i] as u32 as i32).push(0)
}

pub open spec fn is_stringz(t: Seq<char>) -> bool {
    t == seq!['.', 's', 't', 'r', 'i', 'n', 'g', 'z']
}

/// The tables that the first pass builds.
pub struct Tables {
    pub symbols: Seq<(Seq<char>, u32)>,
    pub data: Seq<i32>,
    pub data_table: Seq<(Seq<char>, u32)>,
    pub n_code: nat,
}

pub open spec fn empty_tables() -> Tables {
    Tables { symbols: Seq::empty(), data: Seq::empty(), data_table: Seq::empty(), n_code: 0 }
}

/// The first pass over line `n`.
pub open spec fn collect_line(t: Tables, line: Seq<char>, n: nat) -> Result<Tables, AsmError> {
    match line_kind(line) {
        LineKind::Label => {
            let name = label_of(line);
            if lookup(t.symbols, name).is_some() {
                Err(AsmError::DuplicateSymbol { line: n as usize })
            } else {
                Ok(Tables { symbols: t.symbols.push((name, t.n_code as u32)), ..t })
            }
        },
        LineKind::Data => {
            let tk = split_ws(line);
            if is_stringz(tk[0]) && tk.len() >= 3 {
                if lookup(t.data_table, tk[1]).is_some() {
                    Err(AsmError::DuplicateData { line: n as usize })
                } else {
                    Ok(
                        Tables {
                            data: t.data + stringz(tk[2]),
                            data_table: t.data_table.push((tk[1], t.data.len() as u32)),
                            ..t
                        },
                    )
                }
            } else {
                Err(AsmError::InvalidData { line: n as usize })
            }
        },
        LineKind::Code => Ok(Tables { n_code: t.n_code + 1, ..t }),
        LineKind::Blank => Ok(t),
    }
}

/// The first pass over the first `n` lines: labels, data, and the count of
/// instruction lines.
pub open spec fn collect(lines: Seq<Seq<char>>, n: nat) -> Result<Tables, AsmError>
    decreases n,
{
    if n == 0 || n > lines.len() {
        Ok(empty_tables())
    } else {
        match collect(lines, (n - 1) as nat) {
            Err(e) => Err(e),
            Ok(t) => collect_line(t, lines[n - 1], (n - 1) as nat),
        }
    }
}

/// The instruction of line `n`, which is instruction number `idx`.
pub open spec fn translate_line(t: Tables, line: Seq<char>, idx: nat, n: nat) -> Result<
    Option<Instruction>,
    AsmError,
> {
    if line_kind(line) != LineKind::Code {
        Ok(None)
    } else {
        let tk = split_ws(line);
        if FlowOp::parse(tk[0]).is_some() {
            if tk.len() != 2 {
                Err(AsmError::Parse { line: n as usize })
            } else {
                match lookup(t.symbols, tk[1]) {
                    Some(target) => Ok(
                        Some(
                            Instruction::Flow {
                                op: FlowOp::parse(tk[0]).unwrap(),
                                offset: (target as int - idx as u32 as int) as i32,
                            },
                        ),
                    ),
                    None => Err(AsmError::UnresolvedLabel { line: n as usize }),
                }
            }
        } else if w3(tk[0], 'L', 'E', 'A') {
            if tk.len() != 3 || Register::parse(tk[1]).is_none() {
                Err(AsmError::Parse { line: n as usize })
            } else {
                match lookup(t.data_table, tk[2]) {
                    Some(off) => Ok(
                        Some(
                            Instruction::Data {
                                op: DataOp::LEA,
                                dst: Register::parse(tk[1]).unwrap(),
                                src: RegOrImm::Val((off as int + DATA_INIT_ADDRESS as int) as i32),
                            },
                        ),
                    ),
                    None => Err(AsmError::UnresolvedData { line: n as usize }),
                }
            }
        } else {
            match Instruction::parse_tokens(tk) {
                Some(i) => Ok(Some(i)),
                None => Err(AsmError::Parse { line: n as usize }),
            }
        }
    }
}

/// The second pass over the first `n` lines: the instructions, and for each
/// line the index of the next instruction at or after it.
pub open spec fn translate(lines: Seq<Seq<char>>, t: Tables, n: nat) -> Result<
    (Seq<Instruction>, Seq<u32>),
    AsmError,
>
    decreases n,
{
    if n == 0 || n > lines.len() {
        Ok((Seq::empty(), Seq::empty()))
    } else {
        match translate(lines, t, (n - 1) as nat) {
            Err(e) => Err(e),
            Ok((code, lt)) => match translate_line(t, lines[n - 1], code.len(), (n - 1) as nat) {
                Err(e) => Err(e),
                Ok(None) => Ok((code, lt.push(code.len() as u32))),
                Ok(Some(i)) => Ok((code.push(i), lt.push(code.len() as u32))),
            },
        }
    }
}

/// The image as values.
pub struct Image {
    pub code: Seq<Instruction>,
    pub data: Seq<i32>,
    pub symbols: Seq<(Seq<char>, u32)>,
    pub data_table: Seq<(Seq<char>, u32)>,
    pub line_table: Seq<u32>,
}

/// Assembling and linking all lines of all units, joined in order.
pub open spec fn link(lines: Seq<Seq<char>>) -> Result<Image, AsmError> {
    match collect(lines, lines.len()) {
        Err(e) => Err(e),
        Ok(t) => match translate(lines, t, lines.len()) {
            Err(e) => Err(e),
            Ok((code, lt)) => Ok(
                Image {
                    code,
                    data: t.data,
                    symbols: t.symbols,
                    data_table: t.data_table,
                    line_table: lt,
                },
            ),
        },
    }
}

/// The lines of `s`, split at each newline.
pub open spec fn line_scan(s: Seq<char>) -> (Seq<Seq<char>>, Seq<char>)
    decreases s.len(),
{
    if s.len() == 0 {
        (Seq::empty(), Seq::empty())
    } else {
        let st = line_scan(s.drop_last());
        if s.last() == '\n' {
            (st.0.push(st.1), Seq::empty())
        } else {
            (st.0, st.1.push(s.last()))
        }
    }
}

pub open spec fn lines_of(s: Seq<char>) -> Seq<Seq<char>> {
    line_scan(s).0.push(line_scan(s).1)
}

/// The lines of all units, in order.
pub open spec fn all_lines(units: Seq<Seq<char>>) -> Seq<Seq<char>>
    decreases units.len(),
{
    if units.len() == 0 {
        Seq::empty()
    } else {
        all_lines(units.drop_last()) + lines_of(units.last())
    }
}

pub open spec fn str_views(programs: Seq<&str>) -> Seq<Seq<char>> {
    programs.map_values(|p: &str| p@)
}

/// Names bound to code indices or data offsets.
pub struct SymbolTable {
    entries: Vec<(Vec<char>, u32)>,
}

pub open spec fn entry_views(e: Seq<(Vec<char>, u32)>) -> Seq<(Seq<char>, u32)> {
    e.map_values(|p: (Vec<char>, u32)| (p.0@, p.1))
}

impl View for SymbolTable {
    type V = Seq<(Seq<char>, u32)>;

    closed spec fn view(&self) -> Seq<(Seq<char>, u32)> {
        entry_views(self.entries@)
    }
}

impl SymbolTable {
    pub fn new() -> (r: SymbolTable)
        ensures
            r@ == Seq::<(Seq<char>, u32)>::empty(),
    {
        let r = SymbolTable { entries: Vec::new() };
        proof {
            assert(r@ =~= Seq::<(Seq<char>, u32)>::empty());
        }
        r
    }

    pub fn len(&self) -> (r: usize)
        ensures
            r == self@.len(),
    {
        self.entries.len()
    }

    fn push(&mut self, name: Vec<char>, v: u32)
        ensures
            final(self)@ == old(self)@.push((name@, v)),
    {
        self.entries.push((name, v));
        proof {
            assert(final(self)@ =~= old(self)@.push((name@, v)));
        }
    }

    /// The value bound to `name`.
    pub fn lookup(&self, name: &Vec<char>) -> (r: Option<u32>)
        ensures
            r == lookup(self@, name@),
    {
        let mut i: usize = self.entries.len();
        proof {
            assert(self@.subrange(0, i as int) =~= self@);
        }
        while i > 0
            invariant
                0 <= i <= self@.len(),
                lookup(self@, name@) == lookup(self@.subrange(0, i as int), name@),
            decreases i,
        {
            let ghost pre = self@.subrange(0, i as int);
            proof {
                assert(pre.drop_last() =~= self@.subrange(0, i - 1));
                assert(pre.last() == self@[i - 1]);
            }
            if chars_eq(name, self.entries[i - 1].0.as_slice()) {
                return Some(self.entries[i - 1].1);
            }
            i -= 1;
        }
        None
    }

    /// The value bound to `name`.
    pub fn get(&self, name: &str) -> (r: Option<&u32>)
        ensures
            match r {
                Some(v) => lookup(self@, name@) == Some(*v),
                None => lookup(self@, name@) == None::<u32>,
            },
    {
        let n = str_chars(name);
        let mut i: usize = self.entries.len();
        proof {
            assert(self@.subrange(0, i as int) =~= self@);
        }
        while i > 0
            invariant
                0 <= i <= self@.len(),
                n@ == name@,
                lookup(self@, name@) == lookup(self@.subrange(0, i as int), name@),
            decreases i,
        {
            let ghost pre = self@.subrange(0, i as int);
            proof {
                assert(pre.drop_last() =~= self@.subrange(0, i - 1));
                assert(pre.last() == self@[i - 1]);
            }
            if chars_eq(&n, self.entries[i - 1].0.as_slice()) {
                return Some(&self.entries[i - 1].1);
            }
            i -= 1;
        }
        None
    }
}

/// The assembled program.
pub struct Executable {
    pub code: Vec<Instruction>,
    pub data: Vec<i32>,
    /// Code labels and the index of the instruction that follows each.
    pub symbol_table: SymbolTable,
    /// Data labels and their offsets in `data`.
    pub data_table: SymbolTable,
    /// For each source line, the index of the next instruction at or after it.
    pub line_table: Vec<u32>,
}

impl View for Executable {
    type V = Image;

    open spec fn view(&self) -> Image {
        Image {
            code: self.code@,
            data: self.data@,
            symbols: self.symbol_table@,
            data_table: self.data_table@,
            line_table: self.line_table@,
        }
    }
}

fn has_colon_chars(line: &Vec<char>) -> (r: bool)
    ensures
        r == has_colon(line@),
{
    let mut i: usize = 0;
    while i < line.len()
        invariant
            0 <= i <= line@.len(),
            forall|k: int| 0 <= k < i ==> line@[k] != ':',
        decreases line@.len() - i,
    {
        if line[i] == ':' {
            return true;
        }
        i += 1;
    }
    false
}

fn label_chars(line: &Vec<char>) -> (r: Vec<char>)
    ensures
        r@ == label_of(line@),
{
    let mut r: Vec<char> = Vec::new();
    let mut i: usize = 0;
    while i < line.len()
        invariant
            0 <= i <= line@.len(),
            r@ == label_of(line@.subrange(0, i as int)),
        decreases line@.len() - i,
    {
        let c = line[i];
        proof {
            assert(line@.subrange(0, i + 1).drop_last() =~= line@.subrange(0, i as int));
        }
        if !(c == ':' || is_ws_char(c)) {
            r.push(c);
        }
        i += 1;
    }
    proof {
        assert(line@.subrange(0, line@.len() as int) =~= line@);
    }
    r
}

fn kind_of(line: &Vec<char>, tk: &Vec<Vec<char>>) -> (r: LineKind)
    requires
        views(tk@) == split_ws(line@),
    ensures
        r == line_kind(line@),
{
    if has_colon_chars(line) {
        LineKind::Label
    } else if tk.len() == 0 {
        LineKind::Blank
    } else {
        proof {
            assert(views(tk@)[0] == tk@[0]@);
        }
        if tk[0].len() > 0 && tk[0][0] == '.' {
            LineKind::Data
        } else {
            proof {
                if tk@[0]@.len() == 0 {
                    // a token is never empty
                    assert(false) by {
                        lemma_tokens_nonempty(line@);
                    }
                }
            }
            LineKind::Code
        }
    }
}

proof fn lemma_scan_nonempty(s: Seq<char>)
    ensures
        forall|k: int| 0 <= k < tok_scan_done(s).len() ==> #[trigger] tok_scan_done(s)[k].len() > 0,
    decreases s.len(),
{
    if s.len() > 0 {
        let s0 = s.drop_last();
        lemma_scan_nonempty(s0);
        let st = tok_scan(s0);
        assert(tok_scan(s) == tok_step(st, s.last()));
        assert forall|k: int| 0 <= k < tok_scan_done(s).len() implies #[trigger] tok_scan_done(
            s,
        )[k].len() > 0 by {
            if k < st.0.len() {
                assert(tok_scan_done(s)[k] == tok_scan_done(s0)[k]);
            }
        }
    }
}

pub open spec fn tok_scan_done(s: Seq<char>) -> Seq<Seq<char>> {
    tok_scan(s).0
}

proof fn lemma_tokens_nonempty(s: Seq<char>)
    ensures
        forall|k: int| 0 <= k < split_ws(s).len() ==> #[trigger] split_ws(s)[k].len() > 0,
{
    lemma_scan_nonempty(s);
    assert forall|k: int| 0 <= k < split_ws(s).len() implies #[trigger] split_ws(s)[k].len() > 0 by {
        if k < tok_scan(s).0.len() {
            assert(split_ws(s)[k] == tok_scan_done(s)[k]);
        }
    }
}

/// Splits `s` at each newline.
pub fn split_lines(s: &Vec<char>) -> (r: Vec<Vec<char>>)
    ensures
        views(r@) == lines_of(s@),
{
    let mut done: Vec<Vec<char>> = Vec::new();
    let mut cur: Vec<char> = Vec::new();
    let mut i: usize = 0;
    while i < s.len()
        invariant
            0 <= i <= s@.len(),
            (views(done@), cur@) == line_scan(s@.subrange(0, i as int)),
        decreases s@.len() - i,
    {
        let c = s[i];
        proof {
            assert(s@.subrange(0, i + 1).drop_last() =~= s@.subrange(0, i as int));
        }
        if c == '\n' {
            let ghost before = done@;
            let line = cur;
            done.push(line);
            cur = Vec::new();
            proof {
                assert(views(done@) =~= views(before).push(line@));
                assert(cur@ =~= Seq::<char>::empty());
            }
        } else {
            cur.push(c);
        }
        i += 1;
    }
    proof {
        assert(s@.subrange(0, s@.len() as int) =~= s@);
    }
    let ghost before = done@;
    done.push(cur);
    proof {
        assert(views(done@) =~= views(before).push(cur@));
    }
    done
}

/// The first pass's tables, as they are being built.
struct LinkState {
    symbols: SymbolTable,
    data: Vec<i32>,
    data_table: SymbolTable,
    n_code: usize,
}

impl LinkState {
    spec fn model(&self) -> Tables {
        Tables {
            symbols: self.symbols@,
            data: self.data@,
            data_table: self.data_table@,
            n_code: self.n_code as nat,
        }
    }
}

fn push_stringz(data: &mut Vec<i32>, text: &Vec<char>)
    ensures
        final(data)@ == old(data)@ + stringz(text@),
{
    let mut k: usize = 0;
    while k < text.len()
        invariant
            0 <= k <= text@.len(),
            data@ == old(data)@ + Seq::new(k as nat, |j: int| text@[j] as u32 as i32),
        decreases text@.len() - k,
    {
        data.push(text[k] as u32 as i32);
        k += 1;
        proof {
            assert(data@ =~= old(data)@ + Seq::new(k as nat, |j: int| text@[j] as u32 as i32));
        }
    }
    data.push(0);
    proof {
        assert(final(data)@ =~= old(data)@ + stringz(text@));
    }
}

fn collect_one(st: &mut LinkState, line: &Vec<char>, n: usize) -> (r: Result<(), AsmError>)
    requires
        old(st).n_code <= n,
        n < usize::MAX,
    ensures
        final(st).n_code <= n + 1,
        match collect_line(old(st).model(), line@, n as nat) {
            Ok(t) => r.is_ok() && final(st).model() == t,
            Err(e) => r == Err::<(), AsmError>(e),
        },
{
    let tk = split_whitespace(line);
    let kind = kind_of(line, &tk);
    match kind {
        LineKind::Label => {
            let name = label_chars(line);
            if st.symbols.lookup(&name).is_some() {
                return Err(AsmError::DuplicateSymbol { line: n });
            }
            let idx = st.n_code as u32;
            st.symbols.push(name, idx);
        },
        LineKind::Data => {
            proof {
                assert(views(tk@)[0] == tk@[0]@);
            }
            if !(chars_eq(&tk[0], &['.', 's', 't', 'r', 'i', 'n', 'g', 'z']) && tk.len() >= 3) {
                return Err(AsmError::InvalidData { line: n });
            }
            proof {
                assert(views(tk@)[1] == tk@[1]@);
                assert(views(tk@)[2] == tk@[2]@);
            }
            if st.data_table.lookup(&tk[1]).is_some() {
                return Err(AsmError::DuplicateData { line: n });
            }
            let offset = st.data.len() as u32;
            let label = tk[1].clone();
            st.data_table.push(label, offset);
            push_stringz(&mut st.data, &tk[2]);
        },
        LineKind::Code => {
            st.n_code = st.n_code + 1;
        },
        LineKind::Blank => {},
    }
    Ok(())
}

fn translate_one(st: &LinkState, line: &Vec<char>, idx: usize, n: usize) -> (r: Result<
    Option<Instruction>,
    AsmError,
>)
    ensures
        r == translate_line(st.model(), line@, idx as nat, n as nat),
{
    let tk = split_whitespace(line);
    let kind = kind_of(line, &tk);
    if kind != LineKind::Code {
        return Ok(None);
    }
    proof {
        assert(views(tk@)[0] == tk@[0]@);
    }
    if let Some(op) = FlowOp::from_chars(&tk[0]) {
        if tk.len() != 2 {
            return Err(AsmError::Parse { line: n });
        }
        proof {
            assert(views(tk@)[1] == tk@[1]@);
        }
        match st.symbols.lookup(&tk[1]) {
            Some(target) => {
                let offset = (target as i64 - (idx as u32) as i64) as i32;
                Ok(Some(Instruction::Flow { op, offset }))
            },
            None => Err(AsmError::UnresolvedLabel { line: n }),
        }
    } else if crate::cpu::instructions::is_w3(&tk[0], 'L', 'E', 'A') {
        if tk.len() != 3 {
            return Err(AsmError::Parse { line: n });
        }
        proof {
            assert(views(tk@)[1] == tk@[1]@);
            assert(views(tk@)[2] == tk@[2]@);
        }
        match Register::from_chars(&tk[1]) {
            None => Err(AsmError::Parse { line: n }),
            Some(dst) => match st.data_table.lookup(&tk[2]) {
                Some(off) => {
                    let addr = (off as i64 + DATA_INIT_ADDRESS as i64) as i32;
                    Ok(Some(Instruction::Data { op: DataOp::LEA, dst, src: RegOrImm::Val(addr) }))
                },
                None => Err(AsmError::UnresolvedData { line: n }),
            },
        }
    } else {
        match Instruction::from_tokens(&tk) {
            Some(i) => Ok(Some(i)),
            None => Err(AsmError::Parse { line: n }),
        }
    }
}

/// The first pass over all lines.
fn collect_lines(lines: &Vec<Vec<char>>) -> (r: Result<LinkState, AsmError>)
    ensures
        match collect(views(lines@), lines@.len()) {
            Ok(t) => r.is_ok() && r.unwrap().model() == t,
            Err(e) => r == Err::<LinkState, AsmError>(e),
        },
{
    let ghost ls = views(lines@);
    let mut st = LinkState {
        symbols: SymbolTable::new(),
        data: Vec::new(),
        data_table: SymbolTable::new(),
        n_code: 0,
    };
    proof {
        assert(st.data@ =~= Seq::<i32>::empty());
        assert(st.model() == empty_tables());
    }
    let mut i: usize = 0;
    while i < lines.len()
        invariant
            ls == views(lines@),
            0 <= i <= lines@.len(),
            st.n_code <= i,
            collect(ls, i as nat) == Ok::<Tables, AsmError>(st.model()),
        decreases lines@.len() - i,
    {
        proof {
            assert(ls[i as int] == lines@[i as int]@);
        }
        let res = collect_one(&mut st, &lines[i], i);
        if let Err(e) = res {
            proof {
                lemma_collect_err(ls, (i + 1) as nat, ls.len());
            }
            return Err(e);
        }
        i += 1;
    }
    Ok(st)
}

/// Steps 1 and 2 of assembly for one unit: its code labels, each bound to
/// the index (from 0) of the instruction after it, and its number of
/// instructions.
pub fn gen_symbol_table(program: &str) -> (r: Result<(SymbolTable, u32), AsmError>)
    ensures
        match collect(lines_of(program@), lines_of(program@).len()) {
            Ok(t) => r.is_ok() && r.unwrap().0@ == t.symbols && r.unwrap().1 == t.n_code as u32,
            Err(e) => r == Err::<(SymbolTable, u32), AsmError>(e),
        },
{
    let chars = str_chars(program);
    let lines = split_lines(&chars);
    let st = collect_lines(&lines)?;
    let n = st.n_code as u32;
    Ok((st.symbols, n))
}

/// The data of one unit: the words of its `.stringz` directives, in order,
/// and each directive's label bound to its offset in them.
pub fn extract_data(program: &str) -> (r: Result<(Vec<i32>, SymbolTable), AsmError>)
    ensures
        match collect(lines_of(program@), lines_of(program@).len()) {
            Ok(t) => r.is_ok() && r.unwrap().0@ == t.data && r.unwrap().1@ == t.data_table,
            Err(e) => r == Err::<(Vec<i32>, SymbolTable), AsmError>(e),
        },
{
    let chars = str_chars(program);
    let lines = split_lines(&chars);
    let st = collect_lines(&lines)?;
    Ok((st.data, st.data_table))
}

/// Assembles the lines of all units, joined in order.
pub fn link_lines(lines: &Vec<Vec<char>>) -> (r: Result<Executable, AsmError>)
    ensures
        match link(views(lines@)) {
            Ok(img) => r.is_ok() && r.unwrap()@ == img,
            Err(e) => r == Err::<Executable, AsmError>(e),
        },
{
    let ghost ls = views(lines@);
    let st = collect_lines(lines)?;
    let mut code: Vec<Instruction> = Vec::new();
    let mut lt: Vec<u32> = Vec::new();
    let mut j: usize = 0;
    while j < lines.len()
        invariant
            ls == views(lines@),
            0 <= j <= lines@.len(),
            collect(ls, ls.len()) == Ok::<Tables, AsmError>(st.model()),
            translate(ls, st.model(), j as nat) == Ok::<(Seq<Instruction>, Seq<u32>), AsmError>(
                (code@, lt@),
            ),
            code@.len() <= j,
        decreases lines@.len() - j,
    {
        proof {
            assert(ls[j as int] == lines@[j as int]@);
        }
        let idx = code.len();
        let res = translate_one(&st, &lines[j], idx, j);
        match res {
            Err(e) => {
                proof {
                    lemma_translate_err(ls, st.model(), (j + 1) as nat, ls.len());
                }
                return Err(e);
            },
            Ok(None) => {
                lt.push(idx as u32);
            },
            Ok(Some(instr)) => {
                code.push(instr);
                lt.push(idx as u32);
            },
        }
        j += 1;
    }
    let exe = Executable {
        code,
        data: st.data,
        symbol_table: st.symbols,
        data_table: st.data_table,
        line_table: lt,
    };
    Ok(exe)
}

proof fn lemma_collect_err(ls: Seq<Seq<char>>, n: nat, m: nat)
    requires
        n <= m <= ls.len(),
        collect(ls, n).is_err(),
    ensures
        collect(ls, m) == collect(ls, n),
    decreases m - n,
{
    if m > n {
        lemma_collect_err(ls, n, (m - 1) as nat);
    }
}

proof fn lemma_translate_err(ls: Seq<Seq<char>>, t: Tables, n: nat, m: nat)
    requires
        n <= m <= ls.len(),
        translate(ls, t, n).is_err(),
    ensures
        translate(ls, t, m) == translate(ls, t, n),
    decreases m - n,
{
    if m > n {
        lemma_translate_err(ls, t, n, (m - 1) as nat);
    }
}

/// Assembles and links units, in the order given, into one executable.
pub fn assemble_and_link(programs: Vec<&str>) -> (r: Result<Executable, AsmError>)
    ensures
        match link(all_lines(str_views(programs@))) {
            Ok(img) => r.is_ok() && r.unwrap()@ == img,
            Err(e) => r == Err::<Executable, AsmError>(e),
        },
{
    let ghost units = str_views(programs@);
    let mut lines: Vec<Vec<char>> = Vec::new();
    let mut i: usize = 0;
    while i < programs.len()
        invariant
            units == str_views(programs@),
            0 <= i <= programs@.len(),
            views(lines@) == all_lines(units.subrange(0, i as int)),
        decreases programs@.len() - i,
    {
        let chars = str_chars(programs[i]);
        let mut ls = split_lines(&chars);
        let ghost before = lines@;
        let ghost added = ls@;
        lines.append(&mut ls);
        i += 1;
        proof {
            assert(units.subrange(0, i as int).drop_last() =~= units.subrange(0, i - 1));
            assert(units[i - 1] == programs@[i - 1]@);
            assert(views(lines@) =~= views(before) + views(added));
        }
    }
    proof {
        assert(units.subrange(0, programs@.len() as int) =~= units);
    }
    link_lines(&lines)
}

/// Assembles a single unit.
pub fn assemble(program: &str) -> (r: Result<Executable, AsmError>)
    ensures
        match link(lines_of(program@)) {
            Ok(img) => r.is_ok() && r.unwrap()@ == img,
            Err(e) => r == Err::<Executable, AsmError>(e),
        },
{
    let programs = vec![program];
    proof {
        let u = str_views(programs@);
        assert(programs@.len() == 1);
        assert(u[0] == program@);
        assert(u.drop_last() =~= Seq::<Seq<char>>::empty());
        assert(all_lines(u.drop_last()) == Seq::<Seq<char>>::empty());
        assert(all_lines(u) =~= lines_of(program@));
    }
    assemble_and_link(programs)
}

/// Line `p`'s entry of the second pass stays fixed as later lines are added:
/// its instruction index, and the instruction it produced.
proof fn lemma_translate_prefix(lines: Seq<Seq<char>>, t: Tables, p: nat, n: nat)
    requires
        p < n <= lines.len(),
        translate(lines, t, n).is_ok(),
    ensures
        translate(lines, t, p).is_ok(),
        translate(lines, t, n).unwrap().1.len() == n,
        translate(lines, t, n).unwrap().1[p as int] == translate(lines, t, p).unwrap().0.len() as u32,
        translate(lines, t, p).unwrap().0.len() <= translate(lines, t, n).unwrap().0.len(),
        translate_line(t, lines[p as int], translate(lines, t, p).unwrap().0.len(), p) matches Ok(
            Some(i),
        ) ==> translate(lines, t, p).unwrap().0.len() < translate(lines, t, n).unwrap().0.len()
            && translate(lines, t, n).unwrap().0[translate(lines, t, p).unwrap().0.len() as int] == i,
    decreases n,
{
    lemma_translate_len(lines, t, (n - 1) as nat);
    if n > p + 1 {
        lemma_translate_prefix(lines, t, p, (n - 1) as nat);
    }
}

proof fn lemma_translate_len(lines: Seq<Seq<char>>, t: Tables, n: nat)
    requires
        n <= lines.len(),
        translate(lines, t, n).is_ok(),
    ensures
        translate(lines, t, n).unwrap().1.len() == n,
        translate(lines, t, n).unwrap().0.len() <= n,
        forall|m: nat| m <= n ==> #[trigger] translate(lines, t, m).is_ok(),
    decreases n,
{
    if n > 0 {
        lemma_translate_len(lines, t, (n - 1) as nat);
    }
}

/// Each flow line `OP L` assembles to a flow instruction whose offset, added
/// to the instruction's own index, gives the index that `L` is bound to: the
/// instruction that follows `L:`.
pub proof fn lemma_flow_target(lines: Seq<Seq<char>>, p: nat)
    requires
        link(lines).is_ok(),
        p < lines.len(),
        lines.len() <= u32::MAX,
        line_kind(lines[p as int]) == LineKind::Code,
        FlowOp::parse(split_ws(lines[p as int])[0]).is_some(),
    ensures
        ({
            let img = link(lines).unwrap();
            let idx = img.line_table[p as int];
            let tk = split_ws(lines[p as int]);
            &&& tk.len() == 2
            &&& lookup(img.symbols, tk[1]).is_some()
            &&& idx < img.code.len()
            &&& img.code[idx as int] == Instruction::Flow {
                op: FlowOp::parse(tk[0]).unwrap(),
                offset: (lookup(img.symbols, tk[1]).unwrap() as int - idx as int) as i32,
            }
        }),
{
    let t = collect(lines, lines.len()).unwrap();
    lemma_translate_prefix(lines, t, p, lines.len());
    lemma_translate_len(lines, t, lines.len());
    let pre = translate(lines, t, p).unwrap();
    lemma_translate_len(lines, t, p);
    assert(translate(lines, t, p + 1).is_ok());
    assert(translate(lines, t, p + 1) == match translate_line(t, lines[p as int], pre.0.len(), p) {
        Err(e) => Err(e),
        Ok(None) => Ok((pre.0, pre.1.push(pre.0.len() as u32))),
        Ok(Some(i)) => Ok((pre.0.push(i), pre.1.push(pre.0.len() as u32))),
    });
}

/// Each `LEA r L` line assembles to `LEA r a`, where `a` is the data offset
/// bound to `L` plus `DATA_INIT_ADDRESS`.
pub proof fn lemma_lea_target(lines: Seq<Seq<char>>, p: nat)
    requires
        link(lines).is_ok(),
        p < lines.len(),
        lines.len() <= u32::MAX,
        line_kind(lines[p as int]) == LineKind::Code,
        w3(split_ws(lines[p as int])[0], 'L', 'E', 'A'),
    ensures
        ({
            let img = link(lines).unwrap();
            let idx = img.line_table[p as int];
            let tk = split_ws(lines[p as int]);
            &&& tk.len() == 3
            &&& Register::parse(tk[1]).is_some()
            &&& lookup(img.data_table, tk[2]).is_some()
            &&& idx < img.code.len()
            &&& img.code[idx as int] == Instruction::Data {
                op: DataOp::LEA,
                dst: Register::parse(tk[1]).unwrap(),
                src: RegOrImm::Val((lookup(img.data_table, tk[2]).unwrap() as int + DATA_INIT_ADDRESS as int) as i32),
            }
        }),
{
    let t = collect(lines, lines.len()).unwrap();
    lemma_translate_prefix(lines, t, p, lines.len());
    lemma_translate_len(lines, t, lines.len());
    let pre = translate(lines, t, p).unwrap();
    lemma_translate_len(lines, t, p);
    assert(translate(lines, t, p + 1).is_ok());
    assert(translate(lines, t, p + 1) == match translate_line(t, lines[p as int], pre.0.len(), p) {
        Err(e) => Err(e),
        Ok(None) => Ok((pre.0, pre.1.push(pre.0.len() as u32))),
        Ok(Some(i)) => Ok((pre.0.push(i), pre.1.push(pre.0.len() as u32))),
    });
}

/// The first pass counts exactly the instructions that the second pass emits.
proof fn lemma_counts_agree(lines: Seq<Seq<char>>, t: Tables, n: nat)
    requires
        n <= lines.len(),
        collect(lines, n).is_ok(),
        translate(lines, t, n).is_ok(),
    ensures
        collect(lines, n).unwrap().n_code == translate(lines, t, n).unwrap().0.len(),
    decreases n,
{
    if n > 0 {
        lemma_counts_agree(lines, t, (n - 1) as nat);
    }
}

/// Once bound, a label keeps its value: later lines add only other labels.
proof fn lemma_label_kept(lines: Seq<Seq<char>>, q: nat, n: nat)
    requires
        q < n <= lines.len(),
        collect(lines, n).is_ok(),
        line_kind(lines[q as int]) == LineKind::Label,
    ensures
        collect(lines, (q + 1) as nat).is_ok(),
        lookup(collect(lines, n).unwrap().symbols, label_of(lines[q as int])) == Some(
            collect(lines, q).unwrap().n_code as u32,
        ),
    decreases n,
{
    let name = label_of(lines[q as int]);
    if n == q + 1 {
        let t = collect(lines, q).unwrap();
        assert(t.symbols.push((name, t.n_code as u32)).drop_last() =~= t.symbols);
    } else {
        lemma_collect_ok_prefix(lines, (n - 1) as nat, n);
        lemma_label_kept(lines, q, (n - 1) as nat);
        let t = collect(lines, (n - 1) as nat).unwrap();
        let line = lines[n - 1];
        if line_kind(line) == LineKind::Label {
            let other = label_of(line);
            assert(lookup(t.symbols, other).is_none());
            assert(other != name);
            assert(t.symbols.push((other, t.n_code as u32)).drop_last() =~= t.symbols);
        }
    }
}

proof fn lemma_collect_ok_prefix(lines: Seq<Seq<char>>, m: nat, n: nat)
    requires
        m <= n <= lines.len(),
        collect(lines, n).is_ok(),
    ensures
        collect(lines, m).is_ok(),
    decreases n - m,
{
    if m < n {
        lemma_collect_ok_prefix(lines, (m + 1) as nat, n);
    }
}

/// A label line `L:` is bound to the index of the first instruction after
/// it: the same index that the line table gives for that line.
pub proof fn lemma_label_target(lines: Seq<Seq<char>>, q: nat)
    requires
        link(lines).is_ok(),
        q < lines.len(),
        line_kind(lines[q as int]) == LineKind::Label,
    ensures
        lookup(link(lines).unwrap().symbols, label_of(lines[q as int])) == Some(
            link(lines).unwrap().line_table[q as int],
        ),
{
    let t = collect(lines, lines.len()).unwrap();
    lemma_label_kept(lines, q, lines.len());
    lemma_collect_ok_prefix(lines, q, lines.len());
    lemma_translate_prefix(lines, t, q, lines.len());
    lemma_translate_len(lines, t, lines.len());
    lemma_counts_agree(lines, t, q);
}

} // verus!
