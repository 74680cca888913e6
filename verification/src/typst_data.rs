//! Finding the clozes, linked notes, settings and keywords of a Typst note: a scanner over
//! the text that follows markup, code and math modes and the nesting of square brackets.

use crate::clozes::ClozeMatch;
use crate::text::{byte_offset, str_chars, utf8_len};
use std::ops::Range;
use vstd::prelude::*;

verus! {

/// Whether `c` is alphanumeric, as `char::is_alphanumeric` decides.
pub uninterp spec fn is_alphanumeric_char(c: char) -> bool;

pub open spec fn is_ascii_alphanumeric(c: char) -> bool {
    'a' <= c <= 'z' || 'A' <= c <= 'Z' || '0' <= c <= '9'
}

/// Whether `c` is alphanumeric: among ASCII chars, the letters and digits only; beyond
/// ASCII, as `char::is_alphanumeric` decides.
pub open spec fn alphanumeric(c: char) -> bool {
    if c <= '\u{7f}' {
        is_ascii_alphanumeric(c)
    } else {
        is_alphanumeric_char(c)
    }
}

/// `char::is_alphanumeric`: whether `c` has the Unicode `Alphabetic` property or is numeric.
/// Stated: the result is the named predicate, and among ASCII chars exactly the letters and
/// digits have it, no other ASCII char being alphabetic or numeric in Unicode.
#[verifier::external_body]
pub(crate) fn char_is_alphanumeric(c: char) -> (r: bool)
    ensures
        r == is_alphanumeric_char(c),
        c <= '\u{7f}' ==> (r == is_ascii_alphanumeric(c)),
{
    c.is_alphanumeric()
}

/// The mode the text is in.
#[derive(Clone, Copy, Debug, PartialEq, Eq)]
pub enum DataMode {
    Markup,
    Code,
    Math,
}

/// What a scan looks for.
#[derive(Clone, Copy, Debug, PartialEq, Eq)]
pub enum OutputType {
    Cloze,
    LinkedNote,
    Settings,
    Keyword,
}

/// What a scan found.
pub enum OutputView {
    Cloze(Seq<ClozeMatch>),
    LinkedNote(Range<usize>),
    Settings(Range<usize>),
    Keyword(Range<usize>),
}

/// A cloze whose arguments are not closed yet: its start (`#cl[`), the end of its first
/// argument once known (`][`), and the bracket depth of its first argument.
pub struct OpenCloze {
    pub start: Range<usize>,
    pub first_arg_end: Option<Range<usize>>,
    pub depth: int,
}

/// The state of a scan: the cursor (a char index), the modes entered, the number of open
/// square brackets outside math, and what was found so far.
pub struct ScanState {
    pub pos: int,
    pub modes: Seq<DataMode>,
    pub count: int,
    pub all: Seq<ClozeMatch>,
    pub current: Seq<OpenCloze>,
    /// The calls of the looked-for function (other than clozes) not closed yet: the range of
    /// their start and their bracket depth.
    pub marks: Seq<(Range<usize>, int)>,
}

/// A step of a scan ends it, goes on, returns what was found, or would panic.
pub enum Step {
    Continue(ScanState),
    Break(ScanState),
    Return(ScanState, Range<usize>),
    Panic,
}

pub open spec fn name_char(c: char) -> bool {
    alphanumeric(c) || c == '_' || c == '-'
}

/// The end of the run of name chars starting at `i`.
pub open spec fn name_end(c: Seq<char>, i: int) -> int
    decreases c.len() - i,
{
    if i >= c.len() || !name_char(c[i]) {
        i
    } else {
        name_end(c, i + 1)
    }
}

/// The index of the first newline at or after `i`, or the end.
pub open spec fn line_end(c: Seq<char>, i: int) -> int
    decreases c.len() - i,
{
    if i >= c.len() || c[i] == '\n' {
        i
    } else {
        line_end(c, i + 1)
    }
}

pub open spec fn bo(c: Seq<char>, i: int) -> usize {
    byte_offset(c, i) as usize
}

pub open spec fn in_math(modes: Seq<DataMode>) -> bool {
    modes.len() > 0 && modes.last() == DataMode::Math
}

pub open spec fn in_code(modes: Seq<DataMode>) -> bool {
    modes.len() > 0 && modes.last() == DataMode::Code
}

pub open spec fn pop_mode(modes: Seq<DataMode>) -> Seq<DataMode> {
    if modes.len() > 0 {
        modes.drop_last()
    } else {
        modes
    }
}

/// The function name a scan for `ot` looks for: `cl`, `lin`, `se` or `key`.
pub open spec fn func_name_of(ot: OutputType) -> Seq<char> {
    match ot {
        OutputType::Cloze => "cl"@,
        OutputType::LinkedNote => "lin"@,
        OutputType::Settings => "se"@,
        OutputType::Keyword => "key"@,
    }
}

/// A `#name`, with its opening bracket if any: the start of a looked-for call is noted,
/// and the mode of its argument is entered; the bracket itself is read next.
pub open spec fn step_hash(c: Seq<char>, st: ScanState, ot: OutputType) -> ScanState {
    let p = st.pos;
    let q = name_end(c, p + 1);
    let open = if q < c.len() && (c[q] == '(' || c[q] == '[') {
        Some(c[q])
    } else {
        None
    };
    let after = if open is Some {
        q + 1
    } else {
        q
    };
    let start = Range { start: bo(c, p), end: bo(c, after) };
    let found = c.subrange(p + 1, q) == func_name_of(ot);
    let (current, marks) = if found {
        match ot {
            OutputType::Cloze => (
                st.current.push(OpenCloze { start, first_arg_end: None, depth: st.count + 1 }),
                st.marks,
            ),
            _ => (st.current, st.marks.push((start, st.count + 1))),
        }
    } else {
        (st.current, st.marks)
    };
    let modes = match open {
        Some('[') => st.modes.push(DataMode::Markup),
        Some(_) => st.modes.push(DataMode::Code),
        None => st.modes,
    };
    ScanState { pos: q, modes, current, marks, ..st }
}

/// The cloze match of a cloze closed by the `]` at `p`.
pub open spec fn closed_cloze(c: Seq<char>, cl: OpenCloze, p: int) -> ClozeMatch {
    let here = Range { start: bo(c, p), end: bo(c, p + 1) };
    let first = match cl.first_arg_end {
        Some(f) => f,
        None => here,
    };
    let second = if cl.first_arg_end is Some {
        Some(here)
    } else {
        None
    };
    ClozeMatch {
        start_match: cl.start,
        end_match: Range {
            start: first.start,
            end: match second {
                Some(s) => s.end,
                None => first.end,
            },
        },
        settings_match: match second {
            Some(s) => if first.start + 2 < s.start {
                Range { start: (first.start + 2) as usize, end: s.start }
            } else {
                Range { start: 0, end: 0 }
            },
            None => Range { start: 0, end: 0 },
        },
    }
}

/// A `]` outside math: either `][`, the end of a first argument, or the end of the
/// arguments of a call, which closes the looked-for call of that depth.
pub open spec fn step_close(c: Seq<char>, st: ScanState, ot: OutputType) -> Step {
    let p = st.pos;
    if p + 1 < c.len() && c[p + 1] == '[' {
        let current = if st.current.len() > 0 && st.current.last().depth == st.count {
            st.current.update(
                st.current.len() - 1,
                OpenCloze { first_arg_end: Some(Range { start: bo(c, p), end: bo(c, p + 2) }), ..st.current.last() },
            )
        } else {
            st.current
        };
        Step::Continue(ScanState { pos: p + 2, current, ..st })
    } else if st.count == 0 {
        Step::Panic
    } else {
        let count = st.count - 1;
        let st1 = ScanState { pos: p + 1, count, modes: pop_mode(st.modes), ..st };
        if ot != OutputType::Cloze && st.marks.len() > 0 && st.marks.last().1 == count + 1 {
            Step::Return(
                ScanState { marks: st.marks.drop_last(), ..st1 },
                Range { start: st.marks.last().0.end, end: bo(c, p) },
            )
        } else if st.current.len() > 0 && st.current.last().depth == count + 1 {
            let m = closed_cloze(c, st.current.last(), p);
            let st2 = ScanState { current: st.current.drop_last(), all: st.all.push(m), ..st1 };
            if st2.current.len() == 0 && ot == OutputType::Cloze {
                Step::Break(st2)
            } else {
                Step::Continue(st2)
            }
        } else {
            Step::Continue(st1)
        }
    }
}

/// One step of a scan: the char at the cursor and what follows it.
pub open spec fn scan_step(c: Seq<char>, st: ScanState, ot: OutputType) -> Step {
    let p = st.pos;
    if p >= c.len() {
        Step::Break(st)
    } else {
        let ch = c[p];
        if ch == '/' && p + 1 < c.len() && c[p + 1] == '/' {
            Step::Continue(ScanState { pos: line_end(c, p + 2), ..st })
        } else if ch == '\\' {
            Step::Continue(ScanState { pos: if p + 1 < c.len() { p + 2 } else { p + 1 }, ..st })
        } else if ch == '$' {
            Step::Continue(
                ScanState {
                    pos: p + 1,
                    modes: if in_math(st.modes) {
                        st.modes.drop_last()
                    } else {
                        st.modes.push(DataMode::Math)
                    },
                    ..st
                },
            )
        } else if ch == '#' {
            Step::Continue(step_hash(c, st, ot))
        } else if ch == ')' && in_code(st.modes) {
            Step::Continue(ScanState { pos: p + 1, modes: st.modes.drop_last(), ..st })
        } else if ch == '[' && !in_math(st.modes) {
            Step::Continue(ScanState { pos: p + 1, count: st.count + 1, ..st })
        } else if ch == ']' && !in_math(st.modes) {
            step_close(c, st, ot)
        } else {
            Step::Continue(ScanState { pos: p + 1, ..st })
        }
    }
}

/// The end of a scan: its final state and what it returned, if it returned early; `None`
/// when it would panic.
pub open spec fn scan_run(c: Seq<char>, st: ScanState, ot: OutputType) -> Option<(ScanState, Option<Range<usize>>)>
    decreases c.len() - st.pos,
{
    if st.pos < 0 || st.pos > c.len() {
        None
    } else {
        match scan_step(c, st, ot) {
            Step::Panic => None,
            Step::Break(s) => Some((s, None)),
            Step::Return(s, r) => Some((s, Some(r))),
            Step::Continue(s) => if st.pos < s.pos <= c.len() {
                scan_run(c, s, ot)
            } else {
                None
            },
        }
    }
}

/// A scanner over the text of a Typst note, which keeps its place, modes and open
/// brackets between searches.
pub struct TypstDataParser {
    chars: Vec<char>,
    pos: usize,
    cursor: usize,
    modes: Vec<DataMode>,
    open_square_bracket_count: u32,
}

/// The open cloze of the exec scanner.
struct OpenClozeExec {
    start: Range<usize>,
    first_arg_end: Option<Range<usize>>,
    depth: u32,
}

spec fn open_view(o: OpenClozeExec) -> OpenCloze {
    OpenCloze { start: o.start, first_arg_end: o.first_arg_end, depth: o.depth as int }
}

spec fn opens_view(v: Seq<OpenClozeExec>) -> Seq<OpenCloze> {
    v.map_values(|o: OpenClozeExec| open_view(o))
}

spec fn marks_view(v: Seq<(Range<usize>, u32)>) -> Seq<(Range<usize>, int)> {
    v.map_values(|m: (Range<usize>, u32)| (m.0, m.1 as int))
}

/// The scanner, as a value: the text, the cursor (a char index), the modes entered and the
/// number of open square brackets outside math.
pub struct ParserView {
    pub chars: Seq<char>,
    pub pos: int,
    pub modes: Seq<DataMode>,
    pub count: int,
}

/// The state a search starts from.
pub open spec fn start_state(p: ParserView) -> ScanState {
    ScanState { pos: p.pos, modes: p.modes, count: p.count, all: Seq::empty(), current: Seq::empty(), marks: Seq::empty() }
}

/// A search for `ot` from `p` ends without panicking: its brackets balance as far as it
/// reads, and a search for clozes does not stop inside a cloze after finding another.
pub open spec fn search_ok(p: ParserView, ot: OutputType) -> bool {
    match scan_run(p.chars, start_state(p), ot) {
        None => false,
        Some((s, _)) => !(ot == OutputType::Cloze && s.all.len() > 0 && s.current.len() > 0),
    }
}

/// The scanner after a search for `ot` from `p`.
pub open spec fn after_search(p: ParserView, ot: OutputType) -> ParserView {
    let s = scan_run(p.chars, start_state(p), ot)->Some_0.0;
    ParserView { chars: p.chars, pos: s.pos, modes: s.modes, count: s.count }
}

/// What a search for anything but clozes returns: the range of the argument of the next
/// looked-for call.
pub open spec fn found_range(p: ParserView, ot: OutputType) -> Option<Range<usize>> {
    scan_run(p.chars, start_state(p), ot)->Some_0.1
}

/// The clozes a search for clozes finds: those of the next outermost cloze, sorted by
/// where they start; `None` when there is none.
pub open spec fn found_clozes(p: ParserView) -> Option<Seq<ClozeMatch>> {
    let s = scan_run(p.chars, start_state(p), OutputType::Cloze)->Some_0.0;
    if s.all.len() == 0 {
        None
    } else {
        Some(sort_by_start(s.all))
    }
}

/// The clozes sorted by the start of their start delimiter, keeping the order of equal
/// starts: each is inserted after every one that does not start later.
pub open spec fn sort_by_start(s: Seq<ClozeMatch>) -> Seq<ClozeMatch>
    decreases s.len(),
{
    if s.len() == 0 {
        Seq::empty()
    } else {
        let sorted = sort_by_start(s.drop_last());
        let x = s.last();
        let pos = start_position(sorted, x.start_match.start, sorted.len() as int);
        sorted.take(pos).push(x) + sorted.skip(pos)
    }
}

pub open spec fn start_position(sorted: Seq<ClozeMatch>, key: usize, n: int) -> int
    decreases n,
{
    if n <= 0 {
        0
    } else if sorted[n - 1].start_match.start <= key {
        n
    } else {
        start_position(sorted, key, n - 1)
    }
}

impl TypstDataParser {
    pub closed spec fn view(&self) -> ParserView {
        ParserView {
            chars: self.chars@,
            pos: self.pos as int,
            modes: self.modes@,
            count: self.open_square_bracket_count as int,
        }
    }

    /// The scanner is consistent: its cursor is within the text, its byte offset is known,
    /// and the text is short enough for its counters.
    pub closed spec fn wf(&self) -> bool {
        &&& self.pos <= self.chars.len()
        &&& self.cursor == byte_offset(self.chars@, self.pos as int)
        &&& utf8_len(self.chars@) <= usize::MAX
        &&& self.chars.len() < u32::MAX
        &&& self.open_square_bracket_count <= self.pos
    }

    /// A scanner at the start of `input`, in markup mode.
    pub fn new(input: &str) -> (r: Self)
        requires
            input@.len() < u32::MAX,
        ensures
            r.wf(),
            r.view() == (ParserView { chars: input@, pos: 0, modes: Seq::empty(), count: 0 }),
    {
        let chars = str_chars(input);
        proof {
            assert(chars@.take(0) =~= Seq::<char>::empty());
        }
        TypstDataParser { chars, pos: 0, cursor: 0, modes: Vec::new(), open_square_bracket_count: 0 }
    }
}

spec fn state_of(p: &TypstDataParser, all: Seq<ClozeMatch>, current: Seq<OpenClozeExec>, marks: Seq<(Range<usize>, u32)>) -> ScanState {
    ScanState {
        pos: p.pos as int,
        modes: p.modes@,
        count: p.open_square_bracket_count as int,
        all,
        current: opens_view(current),
        marks: marks_view(marks),
    }
}

/// What a step of the exec scanner did.
enum StepDone {
    Continue,
    Break,
    Return(Range<usize>),
    Panic,
}

proof fn lemma_name_end_bounds(c: Seq<char>, i: int)
    requires
        0 <= i <= c.len(),
    ensures
        i <= name_end(c, i) <= c.len(),
    decreases c.len() - i,
{
    if i < c.len() && name_char(c[i]) {
        lemma_name_end_bounds(c, i + 1);
    }
}

proof fn lemma_line_end_bounds(c: Seq<char>, i: int)
    requires
        0 <= i <= c.len(),
    ensures
        i <= line_end(c, i) <= c.len(),
    decreases c.len() - i,
{
    if i < c.len() && c[i] != '\n' {
        lemma_line_end_bounds(c, i + 1);
    }
}

fn name_end_exec(v: &Vec<char>, i: usize) -> (r: usize)
    requires
        i <= v.len(),
    ensures
        r == name_end(v@, i as int),
{
    let mut j = i;
    while j < v.len() && (char_is_alphanumeric(v[j]) || v[j] == '_' || v[j] == '-')
        invariant
            i <= j <= v.len(),
            name_end(v@, i as int) == name_end(v@, j as int),
        decreases v.len() - j,
    {
        j += 1;
    }
    j
}

fn line_end_exec(v: &Vec<char>, i: usize) -> (r: usize)
    requires
        i <= v.len(),
    ensures
        r == line_end(v@, i as int),
{
    let mut j = i;
    while j < v.len() && v[j] != '\n'
        invariant
            i <= j <= v.len(),
            line_end(v@, i as int) == line_end(v@, j as int),
        decreases v.len() - j,
    {
        j += 1;
    }
    j
}

/// The byte offset of char `to`, from that of char `from`.
fn advance(v: &Vec<char>, from: usize, from_cursor: usize, to: usize) -> (r: usize)
    requires
        from <= to <= v.len(),
        from_cursor == byte_offset(v@, from as int),
        utf8_len(v@) <= usize::MAX,
    ensures
        r == byte_offset(v@, to as int),
{
    let mut i = from;
    let mut off = from_cursor;
    proof {
        crate::text::lemma_byte_offset_full(v@);
    }
    while i < to
        invariant
            from <= i <= to <= v.len(),
            off == byte_offset(v@, i as int),
            utf8_len(v@) <= usize::MAX,
            byte_offset(v@, v.len() as int) == utf8_len(v@),
        decreases to - i,
    {
        proof {
            crate::text::lemma_byte_offset_step(v@, i as int);
            crate::text::lemma_byte_offset_monotonic(v@, i as int + 1, v.len() as int);
        }
        off = off + crate::text::char_width_exec(v[i]);
        i += 1;
    }
    off
}

fn last_mode_is(modes: &Vec<DataMode>, m: DataMode) -> (r: bool)
    ensures
        r == (modes@.len() > 0 && modes@.last() == m),
{
    if modes.len() > 0 {
        let l = modes[modes.len() - 1];
        match (l, m) {
            (DataMode::Markup, DataMode::Markup) => true,
            (DataMode::Code, DataMode::Code) => true,
            (DataMode::Math, DataMode::Math) => true,
            _ => false,
        }
    } else {
        false
    }
}

fn name_is(v: &Vec<char>, lo: usize, hi: usize, ot: OutputType) -> (r: bool)
    requires
        lo <= hi <= v.len(),
    ensures
        r == (v@.subrange(lo as int, hi as int) == func_name_of(ot)),
{
    let name = match ot {
        OutputType::Cloze => str_chars("cl"),
        OutputType::LinkedNote => str_chars("lin"),
        OutputType::Settings => str_chars("se"),
        OutputType::Keyword => str_chars("key"),
    };
    crate::text::range_equals(v, lo, hi, &name)
}

impl TypstDataParser {
    fn step_hash_exec(
        &mut self,
        ot: OutputType,
        current: &mut Vec<OpenClozeExec>,
        marks: &mut Vec<(Range<usize>, u32)>,
        Ghost(all): Ghost<Seq<ClozeMatch>>,
    )
        requires
            old(self).wf(),
            old(self).pos < old(self).chars.len(),
            old(self).chars@[old(self).pos as int] == '#',
        ensures
            final(self).wf(),
            final(self).chars@ == old(self).chars@,
            state_of(final(self), all, final(current)@, final(marks)@) == step_hash(
                old(self).chars@,
                state_of(old(self), all, old(current)@, old(marks)@),
                ot,
            ),
    {
        let ghost c = self.chars@;
        let p = self.pos;
        proof {
            lemma_name_end_bounds(c, p + 1);
        }
        let q = name_end_exec(&self.chars, p + 1);
        let open: Option<char> = if q < self.chars.len() && (self.chars[q] == '(' || self.chars[q] == '[') {
            Some(self.chars[q])
        } else {
            None
        };
        let after = if open.is_some() {
            q + 1
        } else {
            q
        };
        let start_cursor = self.cursor;
        let after_cursor = advance(&self.chars, p, self.cursor, after);
        let start = Range { start: start_cursor, end: after_cursor };
        if name_is(&self.chars, p + 1, q, ot) {
            match ot {
                OutputType::Cloze => {
                    let ghost before = current@;
                    current.push(OpenClozeExec { start, first_arg_end: None, depth: self.open_square_bracket_count + 1 });
                    proof {
                        assert(opens_view(current@) =~= opens_view(before).push(open_view(current@.last())));
                    }
                },
                _ => {
                    let ghost before = marks@;
                    marks.push((start, self.open_square_bracket_count + 1));
                    proof {
                        assert(marks_view(marks@) =~= marks_view(before).push((start, self.open_square_bracket_count + 1)));
                    }
                },
            }
        }
        match open {
            Some('[') => self.modes.push(DataMode::Markup),
            Some(_) => self.modes.push(DataMode::Code),
            None => {},
        }
        let q_cursor = advance(&self.chars, p, self.cursor, q);
        self.pos = q;
        self.cursor = q_cursor;
    }
}

impl TypstDataParser {
    fn step_close_exec(
        &mut self,
        ot: OutputType,
        all: &mut Vec<ClozeMatch>,
        current: &mut Vec<OpenClozeExec>,
        marks: &mut Vec<(Range<usize>, u32)>,
    ) -> (r: StepDone)
        requires
            old(self).wf(),
            old(self).pos < old(self).chars.len(),
        ensures
            final(self).wf(),
            final(self).chars@ == old(self).chars@,
            ({
                let st = state_of(final(self), final(all)@, final(current)@, final(marks)@);
                match (r, step_close(old(self).chars@, state_of(old(self), old(all)@, old(current)@, old(marks)@), ot)) {
                    (StepDone::Continue, Step::Continue(s)) => st == s,
                    (StepDone::Break, Step::Break(s)) => st == s,
                    (StepDone::Return(range), Step::Return(s, r2)) => st == s && range == r2,
                    (StepDone::Panic, Step::Panic) => true,
                    _ => false,
                }
            }),
    {
        let ghost c = self.chars@;
        let p = self.pos;
        let here_start = self.cursor;
        let here_end = advance(&self.chars, p, self.cursor, p + 1);
        if p + 1 < self.chars.len() && self.chars[p + 1] == '[' {
            let two = advance(&self.chars, p, self.cursor, p + 2);
            let n = current.len();
            if n > 0 && current[n - 1].depth == self.open_square_bracket_count {
                let ghost before = current@;
                let last = current.pop().unwrap();
                current.push(OpenClozeExec { start: last.start, first_arg_end: Some(Range { start: here_start, end: two }), depth: last.depth });
                proof {
                    assert(opens_view(current@) =~= opens_view(before).update(
                        n - 1,
                        OpenCloze { first_arg_end: Some(Range { start: here_start, end: two }), ..opens_view(before).last() },
                    ));
                }
            }
            self.pos = p + 2;
            self.cursor = two;
            return StepDone::Continue;
        }
        if self.open_square_bracket_count == 0 {
            return StepDone::Panic;
        }
        self.open_square_bracket_count = self.open_square_bracket_count - 1;
        let ghost modes0 = self.modes@;
        if self.modes.len() > 0 {
            self.modes.pop();
            proof {
                assert(self.modes@ =~= modes0.drop_last());
            }
        }
        self.pos = p + 1;
        self.cursor = here_end;
        let count = self.open_square_bracket_count;
        let nm = marks.len();
        let is_cloze_search = match ot {
            OutputType::Cloze => true,
            _ => false,
        };
        if !is_cloze_search && nm > 0 && marks[nm - 1].1 == count + 1 {
            let ghost before = marks@;
            let m = marks.pop().unwrap();
            proof {
                assert(marks_view(marks@) =~= marks_view(before).drop_last());
            }
            return StepDone::Return(Range { start: m.0.end, end: here_start });
        }
        let ncur = current.len();
        if ncur > 0 && current[ncur - 1].depth == count + 1 {
            let ghost before = current@;
            let cl = current.pop().unwrap();
            proof {
                assert(opens_view(current@) =~= opens_view(before).drop_last());
            }
            let first = match &cl.first_arg_end {
                Some(f) => Range { start: f.start, end: f.end },
                None => Range { start: here_start, end: here_end },
            };
            let second: Option<Range<usize>> = if cl.first_arg_end.is_some() {
                Some(Range { start: here_start, end: here_end })
            } else {
                None
            };
            let settings_match = match &second {
                Some(sr) => {
                    if first.start < sr.start && sr.start - first.start > 2 {
                        Range { start: first.start + 2, end: sr.start }
                    } else {
                        Range { start: 0, end: 0 }
                    }
                },
                None => Range { start: 0, end: 0 },
            };
            let end_end = match &second {
                Some(sr) => sr.end,
                None => first.end,
            };
            let m = ClozeMatch { start_match: cl.start, end_match: Range { start: first.start, end: end_end }, settings_match };
            all.push(m);
            if current.len() == 0 && is_cloze_search {
                return StepDone::Break;
            }
            return StepDone::Continue;
        }
        StepDone::Continue
    }
}

impl TypstDataParser {
    fn step_exec(
        &mut self,
        ot: OutputType,
        all: &mut Vec<ClozeMatch>,
        current: &mut Vec<OpenClozeExec>,
        marks: &mut Vec<(Range<usize>, u32)>,
    ) -> (r: StepDone)
        requires
            old(self).wf(),
        ensures
            final(self).wf(),
            final(self).chars@ == old(self).chars@,
            ({
                let st = state_of(final(self), final(all)@, final(current)@, final(marks)@);
                match (r, scan_step(old(self).chars@, state_of(old(self), old(all)@, old(current)@, old(marks)@), ot)) {
                    (StepDone::Continue, Step::Continue(s)) => st == s,
                    (StepDone::Break, Step::Break(s)) => st == s,
                    (StepDone::Return(range), Step::Return(s, r2)) => st == s && range == r2,
                    (StepDone::Panic, Step::Panic) => true,
                    _ => false,
                }
            }),
    {
        let ghost c = self.chars@;
        let p = self.pos;
        if p >= self.chars.len() {
            return StepDone::Break;
        }
        let ch = self.chars[p];
        if ch == '/' && p + 1 < self.chars.len() && self.chars[p + 1] == '/' {
            proof {
                lemma_line_end_bounds(c, p + 2);
            }
            let e = line_end_exec(&self.chars, p + 2);
            self.cursor = advance(&self.chars, p, self.cursor, e);
            self.pos = e;
            StepDone::Continue
        } else if ch == '\\' {
            let e = if p + 1 < self.chars.len() {
                p + 2
            } else {
                p + 1
            };
            self.cursor = advance(&self.chars, p, self.cursor, e);
            self.pos = e;
            StepDone::Continue
        } else if ch == '$' {
            let ghost m0 = self.modes@;
            if last_mode_is(&self.modes, DataMode::Math) {
                self.modes.pop();
                proof {
                    assert(self.modes@ =~= m0.drop_last());
                }
            } else {
                self.modes.push(DataMode::Math);
            }
            self.cursor = advance(&self.chars, p, self.cursor, p + 1);
            self.pos = p + 1;
            StepDone::Continue
        } else if ch == '#' {
            self.step_hash_exec(ot, current, marks, Ghost(all@));
            StepDone::Continue
        } else if ch == ')' && last_mode_is(&self.modes, DataMode::Code) {
            let ghost m0 = self.modes@;
            self.modes.pop();
            proof {
                assert(self.modes@ =~= m0.drop_last());
            }
            self.cursor = advance(&self.chars, p, self.cursor, p + 1);
            self.pos = p + 1;
            StepDone::Continue
        } else if ch == '[' && !last_mode_is(&self.modes, DataMode::Math) {
            self.open_square_bracket_count = self.open_square_bracket_count + 1;
            self.cursor = advance(&self.chars, p, self.cursor, p + 1);
            self.pos = p + 1;
            StepDone::Continue
        } else if ch == ']' && !last_mode_is(&self.modes, DataMode::Math) {
            self.step_close_exec(ot, all, current, marks)
        } else {
            self.cursor = advance(&self.chars, p, self.cursor, p + 1);
            self.pos = p + 1;
            StepDone::Continue
        }
    }
}

fn sort_by_start_exec(v: Vec<ClozeMatch>) -> (r: Vec<ClozeMatch>)
    ensures
        r@ == sort_by_start(v@),
{
    let ghost orig = v@;
    let mut rest = v;
    let mut out: Vec<ClozeMatch> = Vec::new();
    let n = rest.len();
    let mut i: usize = 0;
    proof {
        assert(orig.take(0) =~= Seq::<ClozeMatch>::empty());
    }
    while rest.len() > 0
        invariant
            n == orig.len(),
            i + rest.len() == n,
            rest@ == orig.skip(i as int),
            out@ == sort_by_start(orig.take(i as int)),
        decreases rest.len(),
    {
        let ghost r0 = rest@;
        let x = rest.remove(0);
        proof {
            assert(x == orig[i as int]);
            assert(rest@ =~= orig.skip(i + 1));
            assert(orig.take(i + 1).drop_last() =~= orig.take(i as int));
            assert(orig.take(i + 1).last() == x);
        }
        let key = x.start_match.start;
        let mut pos = out.len();
        while pos > 0 && out[pos - 1].start_match.start > key
            invariant
                0 <= pos <= out.len(),
                start_position(out@, key, out.len() as int) == start_position(out@, key, pos as int),
            decreases pos,
        {
            pos -= 1;
        }
        let ghost before = out@;
        out.insert(pos, x);
        proof {
            assert(out@ =~= before.take(pos as int).push(x) + before.skip(pos as int));
        }
        i += 1;
    }
    proof {
        assert(orig.take(n as int) =~= orig);
    }
    out
}

impl TypstDataParser {
    fn next_data(&mut self, ot: OutputType) -> (r: (Vec<ClozeMatch>, Option<Range<usize>>))
        requires
            old(self).wf(),
            search_ok(old(self).view(), ot),
        ensures
            final(self).wf(),
            final(self).view() == after_search(old(self).view(), ot),
            r.0@ == scan_run(old(self).view().chars, start_state(old(self).view()), ot)->Some_0.0.all,
            r.1 == found_range(old(self).view(), ot),
    {
        let ghost c = self.chars@;
        let ghost target = scan_run(c, start_state(self.view()), ot);
        let mut all: Vec<ClozeMatch> = Vec::new();
        let mut current: Vec<OpenClozeExec> = Vec::new();
        let mut marks: Vec<(Range<usize>, u32)> = Vec::new();
        proof {
            assert(opens_view(current@) =~= Seq::<OpenCloze>::empty());
            assert(marks_view(marks@) =~= Seq::<(Range<usize>, int)>::empty());
            assert(all@ =~= Seq::<ClozeMatch>::empty());
            assert(state_of(self, all@, current@, marks@) == start_state(self.view()));
        }
        let mut finished: Option<Option<Range<usize>>> = None;
        while finished.is_none()
            invariant
                self.wf(),
                self.chars@ == c,
                target is Some,
                finished is None ==> scan_run(c, state_of(self, all@, current@, marks@), ot) == target,
                finished matches Some(ret) ==> target == Some((state_of(self, all@, current@, marks@), ret)),
            decreases c.len() - self.pos + if finished is None { 1int } else { 0int },
        {
            let ghost st = state_of(self, all@, current@, marks@);
            let done = self.step_exec(ot, &mut all, &mut current, &mut marks);
            match done {
                StepDone::Continue => {},
                StepDone::Break => {
                    finished = Some(None);
                },
                StepDone::Return(range) => {
                    finished = Some(Some(range));
                },
                StepDone::Panic => {
                    proof {
                        assert(scan_run(c, st, ot) is None);
                    }
                    finished = Some(None);
                },
            }
        }
        let ret = match finished {
            Some(r) => r,
            None => None,
        };
        (all, ret)
    }

    /// A search for `ot`, stopping with `None` where the search would panic or not move on:
    /// what was found, and whether a cloze is left open.
    fn next_data_checked(&mut self, ot: OutputType) -> (r: Option<(Vec<ClozeMatch>, Option<Range<usize>>, bool)>)
        requires
            old(self).wf(),
        ensures
            final(self).wf(),
            final(self).chars@ == old(self).chars@,
            match r {
                Some((all, ret, open)) => scan_run(old(self).view().chars, start_state(old(self).view()), ot) matches Some(
                    (s, ret2),
                ) && all@ == s.all && ret == ret2 && open == (s.current.len() > 0) && final(self).view() == after_search(
                    old(self).view(),
                    ot,
                ),
                None => scan_run(old(self).view().chars, start_state(old(self).view()), ot) is None,
            },
    {
        let ghost c = self.chars@;
        let ghost target = scan_run(c, start_state(self.view()), ot);
        let mut all: Vec<ClozeMatch> = Vec::new();
        let mut current: Vec<OpenClozeExec> = Vec::new();
        let mut marks: Vec<(Range<usize>, u32)> = Vec::new();
        proof {
            assert(opens_view(current@) =~= Seq::<OpenCloze>::empty());
            assert(marks_view(marks@) =~= Seq::<(Range<usize>, int)>::empty());
            assert(all@ =~= Seq::<ClozeMatch>::empty());
            assert(state_of(self, all@, current@, marks@) == start_state(self.view()));
        }
        let mut finished: Option<Option<Range<usize>>> = None;
        while finished.is_none()
            invariant
                self.wf(),
                self.chars@ == c,
                c == old(self).chars@,
                target == scan_run(old(self).view().chars, start_state(old(self).view()), ot),
                finished is None ==> scan_run(c, state_of(self, all@, current@, marks@), ot) == target,
                finished matches Some(ret) ==> target == Some((state_of(self, all@, current@, marks@), ret)),
            decreases c.len() - self.pos + if finished is None { 1int } else { 0int },
        {
            let ghost st = state_of(self, all@, current@, marks@);
            let p0 = self.pos;
            let done = self.step_exec(ot, &mut all, &mut current, &mut marks);
            match done {
                StepDone::Continue => {
                    if self.pos <= p0 {
                        proof {
                            assert(self.chars@ == c);
                            assert(scan_step(c, st, ot) matches Step::Continue(s2) && s2.pos <= st.pos);
                            assert(scan_run(c, st, ot) is None);
                        }
                        return None;
                    }
                },
                StepDone::Break => {
                    finished = Some(None);
                },
                StepDone::Return(range) => {
                    finished = Some(Some(range));
                },
                StepDone::Panic => {
                    return None;
                },
            }
        }
        let ret = match finished {
            Some(r) => r,
            None => None,
        };
        let open = current.len() > 0;
        proof {
            assert(opens_view(current@).len() == current@.len());
        }
        Some((all, ret, open))
    }

    /// The clozes of the next outermost cloze, sorted by where they start: the cloze and
    /// the clozes nested in it.
    pub fn next_cloze(&mut self) -> (r: Option<Vec<ClozeMatch>>)
        requires
            old(self).wf(),
            search_ok(old(self).view(), OutputType::Cloze),
        ensures
            final(self).wf(),
            final(self).view() == after_search(old(self).view(), OutputType::Cloze),
            match (r, found_clozes(old(self).view())) {
                (Some(v), Some(w)) => v@ == w,
                (None, None) => true,
                _ => false,
            },
    {
        let (all, _) = self.next_data(OutputType::Cloze);
        if all.len() == 0 {
            None
        } else {
            Some(sort_by_start_exec(all))
        }
    }

    /// The argument of the next linked note (`#lin[...]`).
    pub fn next_linked_note(&mut self) -> (r: Option<Range<usize>>)
        requires
            old(self).wf(),
            search_ok(old(self).view(), OutputType::LinkedNote),
        ensures
            final(self).wf(),
            final(self).view() == after_search(old(self).view(), OutputType::LinkedNote),
            r == found_range(old(self).view(), OutputType::LinkedNote),
    {
        self.next_data(OutputType::LinkedNote).1
    }

    /// The argument of the next setting (`#se[...]`).
    pub fn next_setting(&mut self) -> (r: Option<Range<usize>>)
        requires
            old(self).wf(),
            search_ok(old(self).view(), OutputType::Settings),
        ensures
            final(self).wf(),
            final(self).view() == after_search(old(self).view(), OutputType::Settings),
            r == found_range(old(self).view(), OutputType::Settings),
    {
        self.next_data(OutputType::Settings).1
    }

    /// The argument of the next keyword (`#key[...]`).
    pub fn next_keyword(&mut self) -> (r: Option<Range<usize>>)
        requires
            old(self).wf(),
            search_ok(old(self).view(), OutputType::Keyword),
        ensures
            final(self).wf(),
            final(self).view() == after_search(old(self).view(), OutputType::Keyword),
            r == found_range(old(self).view(), OutputType::Keyword),
    {
        self.next_data(OutputType::Keyword).1
    }
}

/// The clozes of all outermost clozes from `p` on, searching again after each one found:
/// `None` when a search would panic or not move on.
pub open spec fn all_found_clozes(p: ParserView) -> Option<Seq<ClozeMatch>>
    decreases p.chars.len() - p.pos,
{
    if p.pos < 0 || p.pos > p.chars.len() || !search_ok(p, OutputType::Cloze) {
        None
    } else {
        match found_clozes(p) {
            None => Some(Seq::empty()),
            Some(cs) => {
                let q = after_search(p, OutputType::Cloze);
                if q.chars != p.chars || q.pos <= p.pos || q.pos > p.chars.len() {
                    None
                } else {
                    match all_found_clozes(q) {
                        None => None,
                        Some(rest) => Some(cs + rest),
                    }
                }
            },
        }
    }
}

/// The ranges found by searching for `ot` from `p` on, again and again until none is
/// found: `None` when a search would panic or not move on.
pub open spec fn all_found_ranges(p: ParserView, ot: OutputType) -> Option<Seq<Range<usize>>>
    decreases p.chars.len() - p.pos,
{
    if p.pos < 0 || p.pos > p.chars.len() || !search_ok(p, ot) {
        None
    } else {
        match found_range(p, ot) {
            None => Some(Seq::empty()),
            Some(r) => {
                let q = after_search(p, ot);
                if q.chars != p.chars || q.pos <= p.pos || q.pos > p.chars.len() {
                    None
                } else {
                    match all_found_ranges(q, ot) {
                        None => None,
                        Some(rest) => Some(seq![r] + rest),
                    }
                }
            },
        }
    }
}

/// The start of a scan of `data`.
pub open spec fn start_view(data: Seq<char>) -> ParserView {
    ParserView { chars: data, pos: 0, modes: Seq::empty(), count: 0 }
}

fn copy_match(m: &ClozeMatch) -> (r: ClozeMatch)
    ensures
        r == *m,
{
    ClozeMatch {
        start_match: Range { start: m.start_match.start, end: m.start_match.end },
        end_match: Range { start: m.end_match.start, end: m.end_match.end },
        settings_match: Range { start: m.settings_match.start, end: m.settings_match.end },
    }
}

/// All clozes of `data`, each outermost cloze followed by the clozes nested in it, sorted
/// by where they start.
pub fn all_clozes(data: &str) -> (r: Vec<ClozeMatch>)
    requires
        data@.len() < u32::MAX,
        all_found_clozes(start_view(data@)) is Some,
    ensures
        r@ == all_found_clozes(start_view(data@))->Some_0,
{
    let mut parser = TypstDataParser::new(data);
    let ghost total = all_found_clozes(start_view(data@))->Some_0;
    let mut out: Vec<ClozeMatch> = Vec::new();
    loop
        invariant_except_break
            parser.wf(),
            all_found_clozes(parser.view()) is Some,
            total == out@ + all_found_clozes(parser.view())->Some_0,
        ensures
            out@ == total,
        decreases parser.view().chars.len() - parser.view().pos,
    {
        let ghost p = parser.view();
        match parser.next_cloze() {
            None => {
                proof {
                    assert(all_found_clozes(p)->Some_0 =~= Seq::<ClozeMatch>::empty());
                    assert(out@ + Seq::<ClozeMatch>::empty() =~= out@);
                }
                break;
            },
            Some(cs) => {
                let ghost before = out@;
                let mut i: usize = 0;
                while i < cs.len()
                    invariant
                        0 <= i <= cs.len(),
                        out@ == before + cs@.take(i as int),
                    decreases cs.len() - i,
                {
                    out.push(copy_match(&cs[i]));
                    proof {
                        assert(cs@.take(i + 1) =~= cs@.take(i as int).push(cs@[i as int]));
                    }
                    i += 1;
                }
                proof {
                    assert(cs@.take(cs.len() as int) =~= cs@);
                    let rest = all_found_clozes(parser.view())->Some_0;
                    assert(total == before + (cs@ + rest));
                    assert(before + (cs@ + rest) =~= out@ + rest);
                }
            },
        }
    }
    proof {
        assert(out@ =~= total);
    }
    out
}

/// All ranges found by searching `data` for `ot` again and again.
pub fn all_ranges(data: &str, ot: OutputType) -> (r: Vec<Range<usize>>)
    requires
        data@.len() < u32::MAX,
        ot != OutputType::Cloze,
        all_found_ranges(start_view(data@), ot) is Some,
    ensures
        r@ == all_found_ranges(start_view(data@), ot)->Some_0,
{
    let mut parser = TypstDataParser::new(data);
    let ghost total = all_found_ranges(start_view(data@), ot)->Some_0;
    let mut out: Vec<Range<usize>> = Vec::new();
    loop
        invariant_except_break
            parser.wf(),
            ot != OutputType::Cloze,
            all_found_ranges(parser.view(), ot) is Some,
            total == out@ + all_found_ranges(parser.view(), ot)->Some_0,
        ensures
            out@ == total,
        decreases parser.view().chars.len() - parser.view().pos,
    {
        let ghost p = parser.view();
        let found = match ot {
            OutputType::LinkedNote => parser.next_linked_note(),
            OutputType::Settings => parser.next_setting(),
            OutputType::Keyword => parser.next_keyword(),
            OutputType::Cloze => None,
        };
        match found {
            None => {
                proof {
                    assert(all_found_ranges(p, ot)->Some_0 =~= Seq::<Range<usize>>::empty());
                    assert(out@ + Seq::<Range<usize>>::empty() =~= out@);
                }
                break;
            },
            Some(r) => {
                let ghost before = out@;
                out.push(r);
                proof {
                    let rest = all_found_ranges(parser.view(), ot)->Some_0;
                    assert(before + (seq![r] + rest) =~= out@ + rest);
                }
            },
        }
    }
    proof {
        assert(out@ =~= total);
    }
    out
}

/// `found`, when it is some, after `before`.
pub open spec fn after_prefix<T>(before: Seq<T>, found: Option<Seq<T>>) -> Option<Seq<T>> {
    match found {
        None => None,
        Some(rest) => Some(before + rest),
    }
}

/// All clozes of `data`, as `all_clozes` finds them; `None` where a search would panic or
/// not move on.
pub fn all_clozes_checked(data: &str) -> (r: Option<Vec<ClozeMatch>>)
    requires
        data@.len() < u32::MAX,
    ensures
        match r {
            Some(v) => all_found_clozes(start_view(data@)) == Some(v@),
            None => all_found_clozes(start_view(data@)) is None,
        },
{
    let mut parser = TypstDataParser::new(data);
    let ghost total = all_found_clozes(start_view(data@));
    let mut out: Vec<ClozeMatch> = Vec::new();
    proof {
        assert(after_prefix(out@, all_found_clozes(parser.view())) =~= total) by {
            if let Some(rest) = total {
                assert(Seq::<ClozeMatch>::empty() + rest =~= rest);
            }
        }
    }
    loop
        invariant
            parser.wf(),
            parser.view().chars == data@,
            total == all_found_clozes(start_view(data@)),
            total == after_prefix(out@, all_found_clozes(parser.view())),
        decreases parser.view().chars.len() - parser.view().pos,
    {
        let ghost p = parser.view();
        let p0 = parser.pos;
        match parser.next_data_checked(OutputType::Cloze) {
            None => {
                return None;
            },
            Some((all, _, open)) => {
                if all.len() > 0 && open {
                    return None;
                }
                if all.len() == 0 {
                    proof {
                        assert(all_found_clozes(p) == Some(Seq::<ClozeMatch>::empty()));
                        assert(out@ + Seq::<ClozeMatch>::empty() =~= out@);
                    }
                    return Some(out);
                }
                if parser.pos <= p0 {
                    return None;
                }
                let cs = sort_by_start_exec(all);
                let ghost before = out@;
                let mut i: usize = 0;
                while i < cs.len()
                    invariant
                        0 <= i <= cs.len(),
                        out@ == before + cs@.take(i as int),
                    decreases cs.len() - i,
                {
                    out.push(copy_match(&cs[i]));
                    proof {
                        assert(cs@.take(i + 1) =~= cs@.take(i as int).push(cs@[i as int]));
                    }
                    i += 1;
                }
                proof {
                    assert(cs@.take(cs.len() as int) =~= cs@);
                    assert(found_clozes(p) == Some(cs@));
                    if let Some(rest) = all_found_clozes(parser.view()) {
                        assert(before + (cs@ + rest) =~= out@ + rest);
                    }
                }
            },
        }
    }
}

/// All ranges found by searching `data` for `ot`, as `all_ranges` finds them; `None` where a
/// search would panic or not move on.
pub fn all_ranges_checked(data: &str, ot: OutputType) -> (r: Option<Vec<Range<usize>>>)
    requires
        data@.len() < u32::MAX,
        ot != OutputType::Cloze,
    ensures
        match r {
            Some(v) => all_found_ranges(start_view(data@), ot) == Some(v@),
            None => all_found_ranges(start_view(data@), ot) is None,
        },
{
    let mut parser = TypstDataParser::new(data);
    let ghost total = all_found_ranges(start_view(data@), ot);
    let mut out: Vec<Range<usize>> = Vec::new();
    proof {
        assert(after_prefix(out@, all_found_ranges(parser.view(), ot)) =~= total) by {
            if let Some(rest) = total {
                assert(Seq::<Range<usize>>::empty() + rest =~= rest);
            }
        }
    }
    loop
        invariant
            parser.wf(),
            parser.view().chars == data@,
            total == all_found_ranges(start_view(data@), ot),
            total == after_prefix(out@, all_found_ranges(parser.view(), ot)),
            ot != OutputType::Cloze,
        decreases parser.view().chars.len() - parser.view().pos,
    {
        let ghost p = parser.view();
        let p0 = parser.pos;
        match parser.next_data_checked(ot) {
            None => {
                return None;
            },
            Some((_, found, _)) => {
                match found {
                    None => {
                        proof {
                            assert(all_found_ranges(p, ot) == Some(Seq::<Range<usize>>::empty()));
                            assert(out@ + Seq::<Range<usize>>::empty() =~= out@);
                        }
                        return Some(out);
                    },
                    Some(rg) => {
                        if parser.pos <= p0 {
                            return None;
                        }
                        let ghost before = out@;
                        out.push(rg);
                        proof {
                            if let Some(rest) = all_found_ranges(parser.view(), ot) {
                                assert(before + (seq![rg] + rest) =~= out@ + rest);
                            }
                        }
                    },
                }
            },
        }
    }
}

} // verus!
