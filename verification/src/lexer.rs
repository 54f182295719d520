//! Lexes an RMS script into lexical units.
//!
//! A script is split into three kinds of units: line breaks (`"\n"` or
//! `"\r\n"`), maximal runs of ASCII whitespace, and maximal runs of
//! non-whitespace text. Every unit records its 1-indexed line number and
//! 1-indexed start and end columns, measured in characters, and the exact
//! characters it spans, so that concatenating all units in order rebuilds
//! the source text exactly.

use vstd::prelude::*;

verus! {

/// Mathematical content of a [`LexemeInfo`]: position and characters.
pub ghost struct LexemeInfoView {
    /// 1-indexed line number.
    pub line_number: nat,
    /// 1-indexed column of the first character.
    pub start_column: nat,
    /// 1-indexed column of the last character.
    pub end_column: nat,
    /// The characters the unit spans.
    pub characters: Seq<char>,
}

/// Mathematical content of a [`Lexeme`]: its kind and its info.
pub ghost enum LexemeView {
    /// A line break unit.
    LineBreak(LexemeInfoView),
    /// A whitespace unit.
    Whitespace(LexemeInfoView),
    /// A text unit.
    Text(LexemeInfoView),
}

impl LexemeView {
    /// The info carried by a unit, regardless of its kind.
    pub open spec fn info(self) -> LexemeInfoView {
        match self {
            LexemeView::LineBreak(i) => i,
            LexemeView::Whitespace(i) => i,
            LexemeView::Text(i) => i,
        }
    }

    /// The characters a unit spans.
    pub open spec fn chars(self) -> Seq<char> {
        self.info().characters
    }
}

/// Information for a lexeme.
#[derive(Debug, Hash, PartialEq, Eq)]
pub struct LexemeInfo {
    /// The 1-indexed line number of the lexeme.
    line_number: usize,
    /// The 1-indexed column number of the first character of the lexeme.
    start_column: usize,
    /// The 1-indexed column number of the final character of the lexeme.
    end_column: usize,
    /// The sequence of characters comprising the lexeme.
    characters: String,
}

impl View for LexemeInfo {
    type V = LexemeInfoView;

    closed spec fn view(&self) -> LexemeInfoView {
        LexemeInfoView {
            line_number: self.line_number as nat,
            start_column: self.start_column as nat,
            end_column: self.end_column as nat,
            characters: self.characters@,
        }
    }
}

impl Clone for LexemeInfo {
    fn clone(&self) -> (r: Self)
        ensures
            r == *self,
    {
        LexemeInfo {
            line_number: self.line_number,
            start_column: self.start_column,
            end_column: self.end_column,
            characters: self.characters.clone(),
        }
    }
}

impl LexemeInfo {
    /// Returns this token's 1-indexed line number.
    pub fn line_number(&self) -> (r: usize)
        ensures
            r == self@.line_number,
    {
        self.line_number
    }

    /// Returns this token's 1-indexed start column.
    pub fn start_column(&self) -> (r: usize)
        ensures
            r == self@.start_column,
    {
        self.start_column
    }

    /// Returns this token's 1-indexed end column.
    pub fn end_column(&self) -> (r: usize)
        ensures
            r == self@.end_column,
    {
        self.end_column
    }

    /// Returns a reference to this token's characters.
    pub fn characters(&self) -> (r: &str)
        ensures
            r@ == self@.characters,
    {
        self.characters.as_str()
    }
}

/// A lexeme parsed from an RMS file.
#[derive(Debug, Hash, PartialEq, Eq)]
pub enum Lexeme {
    /// A line break: `\r\n` or `\n`.
    LineBreak(LexemeInfo),
    /// A consecutive sequence of whitespace characters that is not a linebreak.
    Whitespace(LexemeInfo),
    /// A lexeme of non-whitespace characters.
    Text(LexemeInfo),
}

impl View for Lexeme {
    type V = LexemeView;

    open spec fn view(&self) -> LexemeView {
        match self {
            Lexeme::LineBreak(i) => LexemeView::LineBreak(i@),
            Lexeme::Whitespace(i) => LexemeView::Whitespace(i@),
            Lexeme::Text(i) => LexemeView::Text(i@),
        }
    }
}

impl Clone for Lexeme {
    fn clone(&self) -> (r: Self)
        ensures
            r == *self,
    {
        match self {
            Lexeme::LineBreak(i) => Lexeme::LineBreak(i.clone()),
            Lexeme::Whitespace(i) => Lexeme::Whitespace(i.clone()),
            Lexeme::Text(i) => Lexeme::Text(i.clone()),
        }
    }
}

impl Lexeme {
    /// Returns a reference to the information associated with `self`.
    pub fn get_info(&self) -> (r: &LexemeInfo)
        ensures
            r@ == self@.info(),
    {
        match self {
            Self::LineBreak(t) => t,
            Self::Whitespace(t) => t,
            Self::Text(t) => t,
        }
    }
}

/// Holds when `c` counts as whitespace in RMS scripts: exactly the ASCII
/// whitespace characters.
pub open spec fn is_whitespace_spec(c: char) -> bool {
    c == ' ' || c == '\t' || c == '\n' || c == '\r' || c == '\u{000C}'
}

/// Returns `true` if `c` is considered a whitespace character in RMS scripts.
/// Returns `false` if not.
///
/// Note that non-ascii unicode whitespace characters are not considered whitespace
/// in map scripts.
pub fn is_whitespace(c: char) -> (r: bool)
    ensures
        r == is_whitespace_spec(c),
{
    c == ' ' || c == '\t' || c == '\n' || c == '\r' || c == '\u{000C}'
}

/// A cursor that consumes the characters of a string slice from the front.
/// Its view is the sequence of characters not yet consumed.
pub struct CharCursor<'a> {
    /// The underlying characters.
    s: &'a str,
    /// Index, in characters, of the first character not yet consumed.
    pos: usize,
}

impl<'a> View for CharCursor<'a> {
    type V = Seq<char>;

    closed spec fn view(&self) -> Seq<char> {
        self.s@.skip(self.pos as int)
    }
}

impl<'a> CharCursor<'a> {
    /// The cursor's position lies within its string.
    pub closed spec fn wf(&self) -> bool {
        self.pos <= self.s@.len()
    }

    /// Returns a cursor over all characters of `s`.
    pub fn new(s: &'a str) -> (r: Self)
        ensures
            r.wf(),
            r@ == s@,
    {
        let r = CharCursor { s, pos: 0 };
        proof {
            assert(r@ =~= s@);
        }
        r
    }
}

/// Length of the longest prefix of `s` whose characters all classify as
/// whitespace when `w` is true, or all as non-whitespace when `w` is false.
pub open spec fn run_len_from(s: Seq<char>, w: bool) -> nat
    decreases s.len(),
{
    if s.len() == 0 || is_whitespace_spec(s[0]) != w {
        0
    } else {
        1 + run_len_from(s.skip(1), w)
    }
}

/// Length of the longest prefix of `s` whose characters share the
/// whitespace classification of the first character of `s`.
pub open spec fn run_len(s: Seq<char>) -> nat {
    if s.len() == 0 {
        0
    } else {
        run_len_from(s, is_whitespace_spec(s[0]))
    }
}

/// `run_len_from(s, w)` marks a maximal prefix of `w`-classified characters.
proof fn lemma_run_len_from(s: Seq<char>, w: bool)
    ensures
        run_len_from(s, w) <= s.len(),
        forall|i: int| 0 <= i < run_len_from(s, w) ==> is_whitespace_spec(s[i]) == w,
        run_len_from(s, w) < s.len() ==> is_whitespace_spec(s[run_len_from(s, w) as int]) != w,
    decreases s.len(),
{
    if s.len() == 0 || is_whitespace_spec(s[0]) != w {
    } else {
        lemma_run_len_from(s.skip(1), w);
        assert forall|i: int| 0 <= i < run_len_from(s, w) implies is_whitespace_spec(s[i]) == w by {
            if i > 0 {
                assert(is_whitespace_spec(s.skip(1)[i - 1]) == w);
                assert(s.skip(1)[i - 1] == s[i]);
            }
        }
        if run_len_from(s, w) < s.len() {
            let k = run_len_from(s.skip(1), w) as int;
            assert(s.skip(1)[k] == s[k + 1]);
        }
    }
}

/// The count of a maximal prefix of `w`-classified characters determines
/// `run_len_from`.
proof fn lemma_run_len_from_eq(s: Seq<char>, w: bool, k: int)
    requires
        0 <= k <= s.len(),
        forall|i: int| 0 <= i < k ==> is_whitespace_spec(s[i]) == w,
        k < s.len() ==> is_whitespace_spec(s[k]) != w,
    ensures
        run_len_from(s, w) == k,
    decreases k,
{
    if k == 0 {
    } else {
        assert(is_whitespace_spec(s[0]) == w);
        assert forall|i: int| 0 <= i < k - 1 implies is_whitespace_spec(s.skip(1)[i]) == w by {
            assert(s.skip(1)[i] == s[i + 1]);
        }
        if k - 1 < s.skip(1).len() {
            assert(s.skip(1)[k - 1] == s[k]);
        }
        lemma_run_len_from_eq(s.skip(1), w, k - 1);
    }
}

/// Consumes and returns one lexeme, text or whitespace, from `chars`.
/// Requires that `chars` contains no line breaks, that is, no `\n` characters.
/// If `chars` is empty, returns `None`. Otherwise returns `Some(lexeme)`
/// while consuming the lexeme from `chars`: the longest nonempty prefix whose
/// characters all share the whitespace classification of the first character.
///
/// `line_number` is the 1-indexed number of the line at which the lexeme is consumed.
/// `start_column` is the 1-indexed number of the column of the lexeme's first character.
pub fn lex_one_lexeme(line_number: usize, start_column: usize, chars: &mut CharCursor) -> (r:
    Option<Lexeme>)
    requires
        old(chars).wf(),
        line_number >= 1,
        start_column >= 1,
        forall|i: int| 0 <= i < old(chars)@.len() ==> old(chars)@[i] != '\n',
        start_column - 1 + old(chars)@.len() <= usize::MAX,
    ensures
        final(chars).wf(),
        old(chars)@.len() == 0 ==> r is None && final(chars)@ == old(chars)@,
        old(chars)@.len() > 0 ==> ({
            let w = is_whitespace_spec(old(chars)@[0]);
            let k = run_len(old(chars)@) as int;
            let iv = LexemeInfoView {
                line_number: line_number as nat,
                start_column: start_column as nat,
                end_column: (start_column + k - 1) as nat,
                characters: old(chars)@.take(k),
            };
            &&& 1 <= k <= old(chars)@.len()
            &&& final(chars)@ == old(chars)@.skip(k)
            &&& r matches Some(lx) && lx@ == (if w {
                LexemeView::Whitespace(iv)
            } else {
                LexemeView::Text(iv)
            })
        }),
{
    let s: &str = chars.s;
    let n = s.unicode_len();
    let start = chars.pos;
    if start == n {
        proof {
            assert(old(chars)@ =~= Seq::<char>::empty());
        }
        return None;
    }
    let w = is_whitespace(s.get_char(start));
    proof {
        assert(old(chars)@[0] == s@[start as int]);
    }
    while chars.pos < n && is_whitespace(s.get_char(chars.pos)) == w
        invariant
            chars.s == s,
            start <= chars.pos <= n,
            start < n,
            n == s@.len(),
            w == is_whitespace_spec(s@[start as int]),
            forall|i: int| start <= i < chars.pos ==> is_whitespace_spec(s@[i]) == w,
        decreases n - chars.pos,
    {
        chars.pos = chars.pos + 1;
    }
    proof {
        assert(chars.pos > start);
        assert(old(chars)@.len() == n - start);
    }
    let num_chars = chars.pos - start;
    let characters = String::from_str(s.substring_char(start, chars.pos));
    let lexeme_info = LexemeInfo {
        line_number,
        start_column,
        end_column: start_column - 1 + num_chars,
        characters,
    };
    proof {
        let orig = old(chars)@;
        let k = num_chars as int;
        assert forall|i: int| 0 <= i < k implies is_whitespace_spec(orig[i]) == w by {
            assert(orig[i] == s@[start + i]);
        }
        if k < orig.len() {
            assert(orig[k] == s@[start + k]);
        }
        lemma_run_len_from_eq(orig, w, k);
        assert(run_len(orig) == k);
        assert(orig.take(k) =~= s@.subrange(start as int, chars.pos as int));
        assert(final(chars)@ =~= orig.skip(k));
    }
    Some(
        if w {
            Lexeme::Whitespace(lexeme_info)
        } else {
            Lexeme::Text(lexeme_info)
        },
    )
}

/// Returns a pair `(line_content, Some(line_break_info))`.
/// If `line` ends with a line break sequence, either `\r\n`, or `\n`,
/// then that sequence is extracted into the information for a `LineBreak` lexeme,
/// and the returned `line_content` references the `line` without the ending break.
///
/// Requires that, if `line` contains a linebreak, then the break is at the end.
/// Requires `line_number >= 1`.
pub fn extract_line_break<'a>(line: &'a str, line_number: usize) -> (r: (
    &'a str,
    Option<LexemeInfo>,
))
    requires
        line_number >= 1,
        forall|i: int| 0 <= i < line@.len() - 1 ==> line@[i] != '\n',
    ensures
        ({
            let s = line@;
            let n = s.len() as int;
            if n >= 2 && s[n - 2] == '\r' && s[n - 1] == '\n' {
                &&& r.0@ == s.take(n - 2)
                &&& r.1 matches Some(info) && info@ == (LexemeInfoView {
                    line_number: line_number as nat,
                    start_column: (n - 1) as nat,
                    end_column: n as nat,
                    characters: seq!['\r', '\n'],
                })
            } else if n >= 1 && s[n - 1] == '\n' {
                &&& r.0@ == s.take(n - 1)
                &&& r.1 matches Some(info) && info@ == (LexemeInfoView {
                    line_number: line_number as nat,
                    start_column: n as nat,
                    end_column: n as nat,
                    characters: seq!['\n'],
                })
            } else {
                &&& r.0@ == s
                &&& r.1 is None
            }
        }),
{
    let n = line.unicode_len();
    if n >= 2 && line.get_char(n - 2) == '\r' && line.get_char(n - 1) == '\n' {
        let content = line.substring_char(0, n - 2);
        let characters = String::from_str("\r\n");
        proof {
            reveal_strlit("\r\n");
            assert(characters@ =~= seq!['\r', '\n']);
            assert(content@ =~= line@.take(n as int - 2));
        }
        (
            content,
            Some(
                LexemeInfo {
                    line_number,
                    // Note the columns are 1-indexed.
                    start_column: n - 1,
                    end_column: n,
                    characters,
                },
            ),
        )
    } else if n >= 1 && line.get_char(n - 1) == '\n' {
        let content = line.substring_char(0, n - 1);
        let characters = String::from_str("\n");
        proof {
            reveal_strlit("\n");
            assert(characters@ =~= seq!['\n']);
            assert(content@ =~= line@.take(n as int - 1));
        }
        (
            content,
            Some(
                LexemeInfo {
                    line_number,
                    // Note the columns are 1-indexed.
                    start_column: n,
                    end_column: n,
                    characters,
                },
            ),
        )
    } else {
        (line, None)
    }
}

/// The view of a sequence of lexemes: the sequence of their views.
pub open spec fn units_of(lexemes: Seq<Lexeme>) -> Seq<LexemeView> {
    lexemes.map_values(|l: Lexeme| l@)
}

/// The text a sequence of units stands for: the concatenation, in order, of
/// the characters of every unit.
pub open spec fn reconstruct_spec(units: Seq<LexemeView>) -> Seq<char>
    decreases units.len(),
{
    if units.len() == 0 {
        Seq::empty()
    } else {
        reconstruct_spec(units.drop_last()) + units.last().chars()
    }
}

/// Appending one unit appends its characters to the reconstruction.
pub proof fn lemma_reconstruct_push(units: Seq<LexemeView>, u: LexemeView)
    ensures
        reconstruct_spec(units.push(u)) == reconstruct_spec(units) + u.chars(),
{
    assert(units.push(u).drop_last() =~= units);
    assert(units.push(u).last() == u);
}

/// A sequence of lexemes comprising a file.
/// Using the information stored in each lexeme, the file may be reconstructed
/// exactly as it was before it was parsed.
#[derive(Debug, PartialEq, Eq, Hash)]
pub struct LexemeFile {
    lexemes: Vec<Lexeme>,
}

impl View for LexemeFile {
    type V = Seq<LexemeView>;

    closed spec fn view(&self) -> Seq<LexemeView> {
        units_of(self.lexemes@)
    }
}

impl LexemeFile {
    /// Returns a reference to the vector of lexemes in this file.
    pub fn lexemes(&self) -> (r: &Vec<Lexeme>)
        ensures
            r@.len() == self@.len(),
            forall|i: int| 0 <= i < r@.len() ==> (#[trigger] r@[i])@ == self@[i],
    {
        &self.lexemes
    }

    /// Returns the original text of the file: the concatenation of the
    /// characters of every lexeme, in order.
    pub fn reconstruct(&self) -> (r: String)
        ensures
            r@ == reconstruct_spec(self@),
    {
        let mut out = String::new();
        let mut i: usize = 0;
        while i < self.lexemes.len()
            invariant
                i <= self.lexemes@.len(),
                out@ == reconstruct_spec(self@.take(i as int)),
            decreases self.lexemes@.len() - i,
        {
            out.append(self.lexemes[i].get_info().characters());
            proof {
                assert(self@.take(i + 1).drop_last() =~= self@.take(i as int));
                assert(self@.take(i + 1).last() == self@[i as int]);
            }
            i = i + 1;
        }
        proof {
            assert(self@.take(self.lexemes@.len() as int) =~= self@);
        }
        out
    }
}

/// The offset in the reconstructed text at which unit `i` begins: the total
/// length of the characters of the units before it.
pub open spec fn unit_offset(units: Seq<LexemeView>, i: int) -> nat
    decreases i,
{
    if i <= 0 {
        0
    } else {
        unit_offset(units, i - 1) + units[i - 1].chars().len()
    }
}

/// Offsets never decrease as the unit index grows.
proof fn lemma_unit_offset_mono(units: Seq<LexemeView>, i: int, j: int)
    requires
        0 <= i <= j,
    ensures
        unit_offset(units, i) <= unit_offset(units, j),
    decreases j - i,
{
    if i < j {
        lemma_unit_offset_mono(units, i, j - 1);
    }
}

/// The offset of unit `i` depends only on the units before it.
proof fn lemma_unit_offset_prefix(units: Seq<LexemeView>, i: int)
    requires
        0 <= i <= units.len() - 1,
    ensures
        unit_offset(units.drop_last(), i) == unit_offset(units, i),
    decreases i,
{
    if i > 0 {
        lemma_unit_offset_prefix(units, i - 1);
        assert(units.drop_last()[i - 1] == units[i - 1]);
    }
}

/// The units of a stream partition its reconstruction with no gaps and no
/// overlaps: consecutive offsets differ by exactly one unit's length, the
/// final offset is the whole text, and unit `i` spans exactly the
/// characters between its offset and the next — so every character of the
/// text belongs to exactly one unit.
#[verifier::rlimit(60)]
pub proof fn lemma_units_partition(units: Seq<LexemeView>, text: Seq<char>)
    requires
        reconstruct_spec(units) == text,
    ensures
        unit_offset(units, units.len() as int) == text.len(),
        forall|i: int|
            0 <= i < units.len() ==> unit_offset(units, i) + (#[trigger] units[i]).chars().len()
                == unit_offset(units, i + 1),
        forall|i: int|
            0 <= i < units.len() ==> (#[trigger] units[i]).chars() == text.subrange(
                unit_offset(units, i) as int,
                unit_offset(units, i + 1) as int,
            ),
    decreases units.len(),
{
    if units.len() > 0 {
        let pre = units.drop_last();
        let u = units.last();
        let pre_text = reconstruct_spec(pre);
        lemma_units_partition(pre, pre_text);
        assert forall|i: int| 0 <= i <= pre.len() implies unit_offset(units, i) == unit_offset(
            pre,
            i,
        ) by {
            if i < units.len() {
                lemma_unit_offset_prefix(units, i);
            } else {
                lemma_unit_offset_prefix(units, i - 1);
                assert(pre[i - 1] == units[i - 1]);
            }
        }
        assert(unit_offset(units, units.len() as int) == unit_offset(units, units.len() - 1)
            + u.chars().len());
        assert(text.len() == pre_text.len() + u.chars().len());
        assert forall|i: int|
            0 <= i < units.len() implies (#[trigger] units[i]).chars() == text.subrange(
            unit_offset(units, i) as int,
            unit_offset(units, i + 1) as int,
        ) by {
            if i < pre.len() {
                assert(units[i] == pre[i]);
                assert(pre[i].chars() == pre_text.subrange(
                    unit_offset(pre, i) as int,
                    unit_offset(pre, i + 1) as int,
                ));
                lemma_unit_offset_mono(pre, i + 1, pre.len() as int);
                assert(unit_offset(pre, i + 1) <= pre_text.len());
                assert(text.subrange(unit_offset(units, i) as int, unit_offset(units, i + 1) as int)
                    =~= pre_text.subrange(
                    unit_offset(pre, i) as int,
                    unit_offset(pre, i + 1) as int,
                ));
            } else {
                assert(units[i] == u);
                assert(u.chars() =~= text.subrange(pre_text.len() as int, text.len() as int));
            }
        }
    }
}

/// A single unit is well formed: it is nonempty and its characters fit its
/// kind. A line break is exactly `"\n"` or `"\r\n"`; a whitespace unit holds
/// only whitespace characters, none of them `'\n'`; a text unit holds only
/// non-whitespace characters.
pub open spec fn unit_wf(u: LexemeView) -> bool {
    match u {
        LexemeView::LineBreak(i) => i.characters == seq!['\n'] || i.characters == seq![
            '\r',
            '\n',
        ],
        LexemeView::Whitespace(i) => i.characters.len() > 0 && (forall|j: int|
            0 <= j < i.characters.len() ==> is_whitespace_spec(#[trigger] i.characters[j])
                && i.characters[j] != '\n'),
        LexemeView::Text(i) => i.characters.len() > 0 && (forall|j: int|
            0 <= j < i.characters.len() ==> !is_whitespace_spec(#[trigger] i.characters[j])),
    }
}

/// Positions are contiguous: the first unit starts at line 1, column 1; a
/// unit following a line break starts at column 1 of the next line; any
/// other unit starts one past its predecessor's end column on the same
/// line; and every unit's end column spans exactly its characters.
pub open spec fn positions_wf(units: Seq<LexemeView>) -> bool {
    &&& (units.len() > 0 ==> units[0].info().line_number == 1 && units[0].info().start_column
        == 1)
    &&& (forall|i: int|
        0 <= i < units.len() ==> (#[trigger] units[i]).info().end_column + 1
            == units[i].info().start_column + units[i].chars().len())
    &&& (forall|i: int|
        0 < i < units.len() ==> match units[i - 1] {
            LexemeView::LineBreak(p) => (#[trigger] units[i]).info().line_number == p.line_number
                + 1 && units[i].info().start_column == 1,
            _ => (#[trigger] units[i]).info().line_number == units[i - 1].info().line_number
                && units[i].info().start_column == units[i - 1].info().end_column + 1,
        })
}

/// Runs are maximal: two adjacent units that are not line breaks never
/// share a kind, and a lone `"\n"` break never follows a unit whose last
/// character is `'\r'` — those two characters would have formed a `"\r\n"`
/// break instead.
pub open spec fn runs_maximal(units: Seq<LexemeView>) -> bool {
    &&& (forall|i: int|
        0 < i < units.len() && !(units[i - 1] is LineBreak) && !((#[trigger] units[i])
            is LineBreak) ==> ((units[i - 1] is Whitespace) <==> (units[i] is Text)))
    &&& (forall|i: int|
        0 < i < units.len() && (#[trigger] units[i]) is LineBreak && units[i].chars() == seq!['\n']
            ==> units[i - 1].chars().len() > 0 && units[i - 1].chars().last() != '\r')
}

/// A token stream is well formed when every unit is well formed, positions
/// are contiguous, and runs are maximal.
#[verifier::opaque]
pub open spec fn stream_wf(units: Seq<LexemeView>) -> bool {
    &&& (forall|i: int| 0 <= i < units.len() ==> unit_wf(#[trigger] units[i]))
    &&& positions_wf(units)
    &&& runs_maximal(units)
}

/// The empty stream is well formed.
proof fn lemma_stream_wf_empty()
    ensures
        stream_wf(Seq::<LexemeView>::empty()),
{
    reveal(stream_wf);
}

/// In a well-formed stream, the characters of a line-break unit end with
/// `'\n'`.
proof fn lemma_stream_wf_last_break_chars(units: Seq<LexemeView>)
    requires
        stream_wf(units),
        units.len() > 0,
        units.last() is LineBreak,
    ensures
        units.last().chars().len() > 0,
        units.last().chars().last() == '\n',
{
    reveal(stream_wf);
    assert(unit_wf(units.last()));
    if units.last().chars() == seq!['\n'] {
        assert(units.last().chars().last() == seq!['\n'][0]);
    } else {
        assert(units.last().chars().last() == seq!['\r', '\n'][1]);
    }
}

/// Extending a well-formed stream with a unit that continues its last line
/// or opens the next one keeps the stream well formed.
proof fn lemma_stream_wf_push(units: Seq<LexemeView>, u: LexemeView)
    requires
        stream_wf(units),
        unit_wf(u),
        u.info().end_column + 1 == u.info().start_column + u.chars().len(),
        units.len() == 0 ==> u.info().line_number == 1 && u.info().start_column == 1,
        units.len() > 0 ==> match units.last() {
            LexemeView::LineBreak(p) => u.info().line_number == p.line_number + 1
                && u.info().start_column == 1,
            _ => u.info().line_number == units.last().info().line_number && u.info().start_column
                == units.last().info().end_column + 1,
        },
        units.len() > 0 && !(units.last() is LineBreak) && !(u is LineBreak) ==> ((units.last()
            is Whitespace) <==> (u is Text)),
        u is LineBreak && u.chars() == seq!['\n'] && units.len() > 0 ==> units.last().chars().len()
            > 0 && units.last().chars().last() != '\r',
    ensures
        stream_wf(units.push(u)),
{
    reveal(stream_wf);
    let v = units.push(u);
    assert forall|i: int| 0 <= i < v.len() implies unit_wf(#[trigger] v[i]) by {
        if i < units.len() {
            assert(v[i] == units[i]);
        } else {
            assert(v[i] == u);
        }
    }
    assert(v[0].info().line_number == 1 && v[0].info().start_column == 1) by {
        if units.len() == 0 {
            assert(v[0] == u);
        } else {
            assert(v[0] == units[0]);
        }
    }
    assert forall|i: int|
        0 <= i < v.len() implies (#[trigger] v[i]).info().end_column + 1
        == v[i].info().start_column + v[i].chars().len() by {
        if i < units.len() {
            assert(v[i] == units[i]);
        } else {
            assert(v[i] == u);
        }
    }
    assert forall|i: int|
        0 < i < v.len() implies match v[i - 1] {
        LexemeView::LineBreak(p) => (#[trigger] v[i]).info().line_number == p.line_number + 1
            && v[i].info().start_column == 1,
        _ => (#[trigger] v[i]).info().line_number == v[i - 1].info().line_number
            && v[i].info().start_column == v[i - 1].info().end_column + 1,
    } by {
        if i < units.len() {
            assert(v[i] == units[i] && v[i - 1] == units[i - 1]);
        } else {
            assert(v[i] == u && v[i - 1] == units.last());
        }
    }
    assert forall|i: int|
        0 < i < v.len() && !(v[i - 1] is LineBreak) && !((#[trigger] v[i]) is LineBreak) implies ((
    v[i - 1] is Whitespace) <==> (v[i] is Text)) by {
        if i < units.len() {
            assert(v[i] == units[i] && v[i - 1] == units[i - 1]);
        } else {
            assert(v[i] == u && v[i - 1] == units.last());
        }
    }
    assert forall|i: int|
        0 < i < v.len() && (#[trigger] v[i]) is LineBreak && v[i].chars() == seq!['\n'] implies v[i
        - 1].chars().len() > 0 && v[i - 1].chars().last() != '\r' by {
        if i < units.len() {
            assert(v[i] == units[i] && v[i - 1] == units[i - 1]);
        } else {
            assert(v[i] == u && v[i - 1] == units.last());
        }
    }
}

/// The reconstruction of a nonempty stream starts with its first unit's
/// characters.
proof fn lemma_reconstruct_first(units: Seq<LexemeView>)
    requires
        units.len() > 0,
    ensures
        reconstruct_spec(units) == units[0].chars() + reconstruct_spec(units.drop_first()),
    decreases units.len(),
{
    if units.len() == 1 {
        assert(units.drop_last() =~= Seq::<LexemeView>::empty());
        assert(units.drop_first() =~= Seq::<LexemeView>::empty());
        assert(units[0] == units.last());
        assert(units[0].chars() + reconstruct_spec(units.drop_first()) =~= units[0].chars());
    } else {
        let pre = units.drop_last();
        lemma_reconstruct_first(pre);
        assert(pre[0] == units[0]);
        assert(units.drop_first().drop_last() =~= pre.drop_first());
        assert(units.drop_first().last() == units.last());
        assert(reconstruct_spec(units.drop_first()) == reconstruct_spec(pre.drop_first())
            + units.last().chars());
        assert(units[0].chars() + (reconstruct_spec(pre.drop_first()) + units.last().chars()) =~= (
        units[0].chars() + reconstruct_spec(pre.drop_first())) + units.last().chars());
    }
}

/// Unit classification and run maximality pass to the tail of a stream.
proof fn lemma_suffix_wf(units: Seq<LexemeView>)
    requires
        units.len() > 0,
        forall|i: int| 0 <= i < units.len() ==> unit_wf(#[trigger] units[i]),
        runs_maximal(units),
    ensures
        forall|i: int|
            0 <= i < units.drop_first().len() ==> unit_wf(#[trigger] units.drop_first()[i]),
        runs_maximal(units.drop_first()),
{
    let t = units.drop_first();
    assert forall|i: int| 0 <= i < t.len() implies unit_wf(#[trigger] t[i]) by {
        assert(t[i] == units[i + 1]);
    }
    assert forall|i: int|
        0 < i < t.len() && !(t[i - 1] is LineBreak) && !((#[trigger] t[i]) is LineBreak) implies ((
    t[i - 1] is Whitespace) <==> (t[i] is Text)) by {
        assert(t[i] == units[i + 1] && t[i - 1] == units[i]);
    }
    assert forall|i: int|
        0 < i < t.len() && (#[trigger] t[i]) is LineBreak && t[i].chars() == seq!['\n'] implies t[i
        - 1].chars().len() > 0 && t[i - 1].chars().last() != '\r' by {
        assert(t[i] == units[i + 1] && t[i - 1] == units[i]);
    }
}

/// Whether position `j` ends a whitespace run that began at the start of
/// `text`: the character is not whitespace, is a line feed, or begins a
/// `"\r\n"` break.
spec fn ws_run_stop(text: Seq<char>, j: int) -> bool {
    !is_whitespace_spec(text[j]) || text[j] == '\n' || (text[j] == '\r' && j + 1 < text.len()
        && text[j + 1] == '\n')
}

/// The first position at or after `j` that ends a whitespace run, or the
/// end of the text.
spec fn ws_run_len_from(text: Seq<char>, j: int) -> int
    recommends
        0 <= j <= text.len(),
    decreases text.len() - j,
{
    if j >= text.len() || ws_run_stop(text, j) {
        j
    } else {
        ws_run_len_from(text, j + 1)
    }
}

/// A count of positions free of run-enders, the first of which ends the
/// run or the text, determines `ws_run_len_from`.
proof fn lemma_ws_run_len_from_eq(text: Seq<char>, j: int, k: int)
    requires
        0 <= j <= k <= text.len(),
        forall|m: int| j <= m < k ==> !ws_run_stop(text, m),
        k < text.len() ==> ws_run_stop(text, k),
    ensures
        ws_run_len_from(text, j) == k,
    decreases k - j,
{
    if j < k {
        lemma_ws_run_len_from_eq(text, j + 1, k);
    }
}

/// How long the first unit of any well-formed stream of a nonempty `text`
/// must be: a one- or two-character break at a leading `'\n'` or `"\r\n"`,
/// else the maximal whitespace or text run.
spec fn first_unit_len(text: Seq<char>) -> int
    recommends
        text.len() > 0,
{
    if text[0] == '\n' {
        1
    } else if text[0] == '\r' && text.len() >= 2 && text[1] == '\n' {
        2
    } else if is_whitespace_spec(text[0]) {
        ws_run_len_from(text, 0)
    } else {
        run_len_from(text, false) as int
    }
}

/// A well-formed unit whose characters begin with `'\n'` is the
/// one-character line break.
proof fn lemma_unit_starting_newline(u: LexemeView)
    requires
        unit_wf(u),
        u.chars().len() > 0,
        u.chars()[0] == '\n',
    ensures
        u is LineBreak,
        u.chars() == seq!['\n'],
{
    match u {
        LexemeView::LineBreak(_) => {
            if u.chars() == seq!['\r', '\n'] {
                assert(u.chars()[0] == '\r');
            }
        },
        LexemeView::Whitespace(_) => {
            assert(u.chars()[0] != '\n');
        },
        LexemeView::Text(_) => {
            assert(!is_whitespace_spec(u.chars()[0]));
        },
    }
}

/// In a stream whose units are well formed and whose runs are maximal, the
/// first unit of a nonempty text is forced: its characters are exactly the
/// leading `first_unit_len` characters, and its kind follows the text's
/// first characters.
#[verifier::rlimit(60)]
proof fn lemma_first_unit(units: Seq<LexemeView>, text: Seq<char>)
    requires
        forall|i: int| 0 <= i < units.len() ==> unit_wf(#[trigger] units[i]),
        runs_maximal(units),
        reconstruct_spec(units) == text,
        text.len() > 0,
    ensures
        units.len() > 0,
        0 < first_unit_len(text) <= text.len(),
        units[0].chars() == text.take(first_unit_len(text)),
        (units[0] is LineBreak) == (text[0] == '\n' || (text[0] == '\r' && text.len() >= 2
            && text[1] == '\n')),
        (units[0] is Whitespace) == (!(units[0] is LineBreak) && is_whitespace_spec(text[0])),
{
    if units.len() == 0 {
        assert(false);
    }
    lemma_reconstruct_first(units);
    let u = units[0];
    let k0 = u.chars().len() as int;
    let rest = reconstruct_spec(units.drop_first());
    assert(unit_wf(u));
    assert(k0 > 0) by {
        if u is LineBreak {
            assert(u.chars().len() > 0);
        }
    }
    assert(forall|j: int| 0 <= j < k0 ==> u.chars()[j] == text[j]);
    // Facts about the unit after the first, when the text continues.
    if k0 < text.len() {
        assert(rest.len() == text.len() - k0);
        if units.drop_first().len() == 0 {
            assert(false);
        }
        lemma_reconstruct_first(units.drop_first());
        assert(units.drop_first()[0] == units[1]);
        assert(unit_wf(units[1]));
        assert(units[1].chars().len() > 0) by {
            if units[1] is LineBreak {
                assert(units[1].chars().len() > 0);
            }
        }
        assert(forall|j: int|
            0 <= j < units[1].chars().len() ==> units[1].chars()[j] == rest[j] && rest[j] == text[
                k0 + j
            ]);
    }
    if text[0] == '\n' {
        lemma_unit_starting_newline(u);
        assert(k0 == 1);
        assert(u.chars() =~= text.take(1));
    } else if text[0] == '\r' && text.len() >= 2 && text[1] == '\n' {
        match u {
            LexemeView::Text(_) => {
                assert(!is_whitespace_spec(u.chars()[0]));
                assert(false);
            },
            LexemeView::LineBreak(_) => {
                if u.chars() == seq!['\n'] {
                    assert(u.chars()[0] == '\n');
                    assert(false);
                }
                assert(u.chars() == seq!['\r', '\n']);
                assert(k0 == 2);
                assert(u.chars() =~= text.take(2));
            },
            LexemeView::Whitespace(_) => {
                // The run holds no '\n', so it is the lone '\r'; but then
                // the next unit would be a bare '\n' break after an '\r',
                // which maximality forbids.
                assert(u.chars()[k0 - 1] != '\n');
                if k0 >= 2 {
                    assert(u.chars()[1] == text[1]);
                    assert(false);
                }
                assert(k0 == 1);
                lemma_unit_starting_newline(units[1]);
                assert(units[1] is LineBreak && units[1].chars() == seq!['\n']);
                assert(units[0].chars().last() != '\r');
                assert(u.chars()[0] == '\r');
                assert(false);
            },
        }
    } else if is_whitespace_spec(text[0]) {
        match u {
            LexemeView::Text(_) => {
                assert(!is_whitespace_spec(u.chars()[0]));
                assert(false);
            },
            LexemeView::LineBreak(_) => {
                if u.chars() == seq!['\n'] {
                    assert(text[0] == '\n');
                } else {
                    assert(u.chars() == seq!['\r', '\n']);
                    assert(text[0] == '\r' && text[1] == '\n' && text.len() >= 2);
                }
                assert(false);
            },
            LexemeView::Whitespace(_) => {
                assert forall|m: int| 0 <= m < k0 implies !ws_run_stop(text, m) by {
                    assert(text[m] == u.chars()[m]);
                    assert(is_whitespace_spec(text[m]) && text[m] != '\n');
                    if text[m] == '\r' && m + 1 < text.len() && text[m + 1] == '\n' {
                        if m + 1 < k0 {
                            assert(u.chars()[m + 1] == '\n');
                            assert(false);
                        }
                        // The run would end in '\r' right before a bare
                        // '\n' break, which maximality forbids.
                        assert(m == k0 - 1 && k0 < text.len());
                        lemma_unit_starting_newline(units[1]);
                        assert(units[0].chars().last() != '\r');
                        assert(false);
                    }
                }
                if k0 < text.len() && !ws_run_stop(text, k0) {
                    let u1 = units[1];
                    let c = text[k0 as int];
                    assert(u1.chars()[0] == c);
                    match u1 {
                        LexemeView::Text(_) => {
                            assert(!is_whitespace_spec(c));
                            assert(false);
                        },
                        LexemeView::LineBreak(_) => {
                            if u1.chars() == seq!['\n'] {
                                assert(c == '\n');
                            } else {
                                assert(u1.chars() == seq!['\r', '\n']);
                                assert(c == '\r');
                                assert(u1.chars()[1] == text[k0 + 1]);
                                assert(text[k0 + 1] == '\n');
                            }
                            assert(false);
                        },
                        LexemeView::Whitespace(_) => {
                            // Two adjacent whitespace runs cannot both be
                            // maximal.
                            assert((units[0] is Whitespace) <==> (units[1] is Text));
                            assert(false);
                        },
                    }
                }
                lemma_ws_run_len_from_eq(text, 0, k0);
                assert(u.chars() =~= text.take(k0));
            },
        }
    } else {
        match u {
            LexemeView::Whitespace(_) => {
                assert(is_whitespace_spec(u.chars()[0]));
                assert(false);
            },
            LexemeView::LineBreak(_) => {
                if u.chars() == seq!['\n'] {
                    assert(text[0] == '\n');
                } else {
                    assert(u.chars() == seq!['\r', '\n']);
                    assert(text[0] == '\r');
                }
                assert(false);
            },
            LexemeView::Text(_) => {
                assert forall|m: int| 0 <= m < k0 implies is_whitespace_spec(text[m]) == false by {
                    assert(text[m] == u.chars()[m]);
                }
                if k0 < text.len() && !is_whitespace_spec(text[k0 as int]) {
                    let u1 = units[1];
                    let c = text[k0 as int];
                    assert(u1.chars()[0] == c);
                    match u1 {
                        LexemeView::Whitespace(_) => {
                            assert(is_whitespace_spec(c));
                            assert(false);
                        },
                        LexemeView::LineBreak(_) => {
                            if u1.chars() == seq!['\n'] {
                                assert(c == '\n');
                            } else {
                                assert(u1.chars() == seq!['\r', '\n']);
                                assert(c == '\r');
                            }
                            assert(false);
                        },
                        LexemeView::Text(_) => {
                            // Two adjacent text runs cannot both be maximal.
                            assert((units[0] is Whitespace) <==> (units[1] is Text));
                            assert(false);
                        },
                    }
                }
                lemma_run_len_from_eq(text, false, k0);
                assert(u.chars() =~= text.take(k0));
            },
        }
    }
}

/// Two streams with well-formed units and maximal runs that reconstruct
/// the same text agree in length, kinds and characters, unit by unit.
proof fn lemma_units_chars_unique(a: Seq<LexemeView>, b: Seq<LexemeView>, text: Seq<char>)
    requires
        forall|i: int| 0 <= i < a.len() ==> unit_wf(#[trigger] a[i]),
        forall|i: int| 0 <= i < b.len() ==> unit_wf(#[trigger] b[i]),
        runs_maximal(a),
        runs_maximal(b),
        reconstruct_spec(a) == text,
        reconstruct_spec(b) == text,
    ensures
        a.len() == b.len(),
        forall|i: int|
            0 <= i < a.len() ==> (#[trigger] a[i]).chars() == b[i].chars() && ((a[i] is LineBreak)
                == (b[i] is LineBreak)) && ((a[i] is Whitespace) == (b[i] is Whitespace)) && ((a[i]
                is Text) == (b[i] is Text)),
    decreases text.len(),
{
    if text.len() == 0 {
        if a.len() > 0 {
            lemma_reconstruct_first(a);
            assert(unit_wf(a[0]));
            assert(a[0].chars().len() > 0) by {
                if a[0] is LineBreak {
                    assert(a[0].chars().len() > 0);
                }
            }
            assert(false);
        }
        if b.len() > 0 {
            lemma_reconstruct_first(b);
            assert(unit_wf(b[0]));
            assert(b[0].chars().len() > 0) by {
                if b[0] is LineBreak {
                    assert(b[0].chars().len() > 0);
                }
            }
            assert(false);
        }
    } else {
        lemma_first_unit(a, text);
        lemma_first_unit(b, text);
        lemma_reconstruct_first(a);
        lemma_reconstruct_first(b);
        let k = first_unit_len(text);
        assert(reconstruct_spec(a.drop_first()) =~= text.skip(k));
        assert(reconstruct_spec(b.drop_first()) =~= text.skip(k));
        lemma_suffix_wf(a);
        lemma_suffix_wf(b);
        lemma_units_chars_unique(a.drop_first(), b.drop_first(), text.skip(k));
        assert(a.len() == b.len());
        assert forall|i: int|
            0 <= i < a.len() implies (#[trigger] a[i]).chars() == b[i].chars() && ((a[i]
            is LineBreak) == (b[i] is LineBreak)) && ((a[i] is Whitespace) == (b[i] is Whitespace))
            && ((a[i] is Text) == (b[i] is Text)) by {
            if i > 0 {
                assert(a[i] == a.drop_first()[i - 1]);
                assert(b[i] == b.drop_first()[i - 1]);
                assert(a.drop_first()[i - 1].chars() == b.drop_first()[i - 1].chars());
            }
        }
    }
}

/// In two streams with contiguous positions whose units agree in kind and
/// characters, the recorded positions agree too: the first `n` units are
/// equal.
proof fn lemma_positions_unique(a: Seq<LexemeView>, b: Seq<LexemeView>, n: int)
    requires
        positions_wf(a),
        positions_wf(b),
        a.len() == b.len(),
        forall|i: int|
            0 <= i < a.len() ==> (#[trigger] a[i]).chars() == b[i].chars() && ((a[i] is LineBreak)
                == (b[i] is LineBreak)) && ((a[i] is Whitespace) == (b[i] is Whitespace)) && ((a[i]
                is Text) == (b[i] is Text)),
        0 <= n <= a.len(),
    ensures
        forall|i: int| 0 <= i < n ==> a[i] == b[i],
    decreases n,
{
    if n > 0 {
        lemma_positions_unique(a, b, n - 1);
        let i = n - 1;
        assert(a[i].info().line_number == b[i].info().line_number && a[i].info().start_column
            == b[i].info().start_column) by {
            if i > 0 {
                assert(a[i - 1] == b[i - 1]);
            }
        }
        assert(a[i].info().end_column == b[i].info().end_column);
        assert(a[i].info() == b[i].info());
        assert(a[i] == b[i]) by {
            match a[i] {
                LexemeView::LineBreak(_) => {
                    assert(a[i] == LexemeView::LineBreak(a[i].info()));
                    assert(b[i] == LexemeView::LineBreak(b[i].info()));
                },
                LexemeView::Whitespace(_) => {
                    assert(a[i] == LexemeView::Whitespace(a[i].info()));
                    assert(b[i] == LexemeView::Whitespace(b[i].info()));
                },
                LexemeView::Text(_) => {
                    assert(a[i] == LexemeView::Text(a[i].info()));
                    assert(b[i] == LexemeView::Text(b[i].info()));
                },
            }
        }
        assert(forall|j: int| 0 <= j < n ==> a[j] == b[j]);
    }
}

/// A well-formed token stream is determined by the text it reconstructs:
/// two well-formed streams of the same text are equal, unit for unit and
/// position for position. Together with the contract of [`tokenize`] this
/// pins the tokenizer down completely: any function returning a
/// well-formed stream that reconstructs to its input returns exactly the
/// stream `tokenize` returns.
pub proof fn lemma_stream_unique(a: Seq<LexemeView>, b: Seq<LexemeView>)
    requires
        stream_wf(a),
        stream_wf(b),
        reconstruct_spec(a) == reconstruct_spec(b),
    ensures
        a == b,
{
    reveal(stream_wf);
    lemma_units_chars_unique(a, b, reconstruct_spec(a));
    lemma_positions_unique(a, b, a.len() as int);
    assert(a =~= b);
}

/// Lexes the whitespace and text units of one line's content — a stretch of
/// the script free of line breaks — appending them, in order, to `lexemes`.
///
/// The appended units carry line number `line_number` and columns starting
/// at 1, and their characters concatenate to exactly `line_content`. The
/// stream stays well formed; the facts about its last unit let the caller
/// append the line's break, if there is one.
fn lex_line_content(line_number: usize, line_content: &str, lexemes: &mut Vec<Lexeme>)
    requires
        1 <= line_number,
        line_content@.len() < usize::MAX,
        forall|j: int| 0 <= j < line_content@.len() ==> line_content@[j] != '\n',
        stream_wf(units_of(old(lexemes)@)),
        old(lexemes)@.len() == 0 ==> line_number == 1,
        old(lexemes)@.len() > 0 ==> units_of(old(lexemes)@).last() is LineBreak && units_of(
            old(lexemes)@,
        ).last().info().line_number + 1 == line_number,
    ensures
        stream_wf(units_of(final(lexemes)@)),
        reconstruct_spec(units_of(final(lexemes)@)) == reconstruct_spec(units_of(old(lexemes)@))
            + line_content@,
        line_content@.len() == 0 ==> final(lexemes)@.len() == old(lexemes)@.len() && (old(
            lexemes,
        )@.len() > 0 ==> units_of(final(lexemes)@).last() is LineBreak && units_of(
            final(lexemes)@,
        ).last().info().line_number + 1 == line_number),
        line_content@.len() > 0 ==> final(lexemes)@.len() > 0 && ({
            let last = units_of(final(lexemes)@).last();
            &&& !(last is LineBreak)
            &&& last.info().line_number == line_number
            &&& last.info().end_column == line_content@.len()
            &&& last.chars().len() > 0
            &&& last.chars().last() == line_content@[line_content@.len() - 1]
        }),
{
    let ghost content_s = line_content@;
    let ghost cl = content_s.len() as int;
    let ghost lex0 = old(lexemes)@;
    let ghost units0 = units_of(lex0);
    let ghost len0 = lex0.len();
    let mut cursor = CharCursor::new(line_content);
    let mut start_column: usize = 1;
    proof {
        assert(cursor@ =~= content_s.skip(start_column - 1));
        assert(content_s.take(start_column - 1) =~= Seq::<char>::empty());
        assert(reconstruct_spec(units0) + content_s.take(start_column - 1) =~= reconstruct_spec(
            units0,
        ));
    }
    loop
        invariant
            cursor.wf(),
            1 <= line_number,
            content_s == line_content@,
            cl == content_s.len(),
            cl < usize::MAX,
            forall|j: int| 0 <= j < cl ==> content_s[j] != '\n',
            1 <= start_column,
            start_column - 1 <= cl,
            cursor@ == content_s.skip(start_column - 1),
            lexemes@.len() >= len0,
            reconstruct_spec(units_of(lexemes@)) == reconstruct_spec(units0) + content_s.take(
                start_column - 1,
            ),
            stream_wf(units_of(lexemes@)),
            lexemes@.len() == len0 ==> start_column == 1 && (len0 > 0 ==> units_of(
                lexemes@,
            ).last() is LineBreak && units_of(lexemes@).last().info().line_number + 1
                == line_number),
            len0 == 0 ==> line_number == 1,
            lexemes@.len() > len0 ==> ({
                let last = units_of(lexemes@).last();
                &&& !(last is LineBreak)
                &&& last.info().line_number == line_number
                &&& last.info().end_column + 1 == start_column
                &&& start_column >= 2
                &&& last.chars().len() > 0
                &&& last.chars().last() == content_s[start_column - 2]
            }),
            lexemes@.len() > len0 && cursor@.len() > 0 ==> ((units_of(lexemes@).last()
                is Whitespace) <==> !is_whitespace_spec(cursor@[0])),
        ensures
            start_column - 1 == cl,
            lexemes@.len() >= len0,
            reconstruct_spec(units_of(lexemes@)) == reconstruct_spec(units0) + content_s.take(
                start_column - 1,
            ),
            stream_wf(units_of(lexemes@)),
            lexemes@.len() == len0 ==> start_column == 1 && (len0 > 0 ==> units_of(
                lexemes@,
            ).last() is LineBreak && units_of(lexemes@).last().info().line_number + 1
                == line_number),
            lexemes@.len() > len0 ==> ({
                let last = units_of(lexemes@).last();
                &&& !(last is LineBreak)
                &&& last.info().line_number == line_number
                &&& last.info().end_column + 1 == start_column
                &&& start_column >= 2
                &&& last.chars().len() > 0
                &&& last.chars().last() == content_s[start_column - 2]
            }),
        decreases cursor@.len(),
    {
        let ghost orig = cursor@;
        let ghost units_before = units_of(lexemes@);
        let lx_opt = lex_one_lexeme(line_number, start_column, &mut cursor);
        match lx_opt {
            None => {
                proof {
                    assert(orig.len() == cl - (start_column - 1));
                }
                break ;
            },
            Some(lx) => {
                let ghost w = is_whitespace_spec(orig[0]);
                let ghost k = run_len(orig) as int;
                proof {
                    lemma_run_len_from(orig, w);
                    // The new unit continues the current line.
                    assert(cursor@ =~= content_s.skip(start_column - 1 + k));
                    lemma_reconstruct_push(units_before, lx@);
                    assert(lx@.chars() =~= content_s.subrange(
                        start_column - 1,
                        start_column - 1 + k,
                    ));
                    assert(content_s.take(start_column - 1 + k) =~= content_s.take(
                        start_column - 1,
                    ) + content_s.subrange(start_column - 1, start_column - 1 + k));
                    assert(unit_wf(lx@)) by {
                        assert forall|j: int| 0 <= j < k implies is_whitespace_spec(
                            #[trigger] lx@.chars()[j],
                        ) == w && lx@.chars()[j] != '\n' by {
                            assert(lx@.chars()[j] == orig[j]);
                            assert(orig[j] == content_s[start_column - 1 + j]);
                        }
                    }
                    assert(!(lx@ is LineBreak));
                    assert(lx@.info().line_number == line_number as nat);
                    assert(lx@.info().start_column == start_column as nat);
                    lemma_stream_wf_push(units_before, lx@);
                    assert(units_of(lexemes@.push(lx)) =~= units_before.push(lx@));
                    if k < orig.len() {
                        assert(cursor@[0] == orig[k]);
                    }
                    assert(lx@.chars().last() == content_s[start_column - 1 + k - 1]);
                }
                let end_col = lx.get_info().end_column();
                lexemes.push(lx);
                start_column = end_col + 1;
            },
        }
    }
    proof {
        assert(content_s.take(cl) =~= content_s);
        if cl == 0 {
            assert(lexemes@.len() == len0);
        }
    }
}

/// Turns the rms script in `text` into a sequence of lexemes.
/// Returns the lexemes.
///
/// The returned stream is well formed — see [`stream_wf`] — and
/// concatenating the characters of its units, in order, yields `text`
/// exactly, so the script can be rebuilt from its lexemes without loss.
#[verifier::rlimit(60)]
pub fn tokenize(text: &str) -> (r: LexemeFile)
    requires
        text@.len() < usize::MAX,
    ensures
        reconstruct_spec(r@) == text@,
        stream_wf(r@),
{
    let n = text.unicode_len();
    let mut lexemes: Vec<Lexeme> = Vec::new();
    let mut line_number: usize = 1;
    let mut pos: usize = 0;
    proof {
        lemma_stream_wf_empty();
        assert(units_of(lexemes@) =~= Seq::<LexemeView>::empty());
        assert(text@.take(0) =~= Seq::<char>::empty());
    }
    while pos < n
        invariant
            n == text@.len(),
            n < usize::MAX,
            pos <= n,
            1 <= line_number,
            line_number <= pos + 1,
            reconstruct_spec(units_of(lexemes@)) == text@.take(pos as int),
            stream_wf(units_of(lexemes@)),
            pos < n ==> (lexemes@.len() == 0 ==> line_number == 1),
            pos < n ==> (lexemes@.len() > 0 ==> units_of(lexemes@).last() is LineBreak
                && units_of(lexemes@).last().info().line_number + 1 == line_number),
        decreases n - pos,
    {
        // Find the end of the current line, including its trailing '\n' if any.
        let mut line_end: usize = pos;
        while line_end < n && text.get_char(line_end) != '\n'
            invariant
                n == text@.len(),
                pos <= line_end <= n,
                forall|i: int| pos <= i < line_end ==> text@[i] != '\n',
            decreases n - line_end,
        {
            line_end = line_end + 1;
        }
        let ghost scan_end = line_end as int;
        if line_end < n {
            line_end = line_end + 1;
        }
        let line = text.substring_char(pos, line_end);
        let ghost line_s = line@;
        proof {
            assert forall|i: int| 0 <= i < line_s.len() - 1 implies line_s[i] != '\n' by {
                assert(line_s[i] == text@[pos + i]);
            }
        }
        let (line_content, line_break) = extract_line_break(line, line_number);
        let ghost content_s = line_content@;
        let ghost cl = content_s.len() as int;
        proof {
            // In each case of extract_line_break, the content is a prefix of
            // the line, hence a slice of the text free of '\n'.
            assert(content_s == line_s.take(cl));
            assert(content_s =~= text@.subrange(pos as int, pos + cl));
            assert forall|j: int| 0 <= j < cl implies content_s[j] != '\n' by {
                assert(content_s[j] == text@[pos + j]);
                assert(pos + j < scan_end);
            }
        }
        lex_line_content(line_number, line_content, &mut lexemes);
        proof {
            assert(text@.take(pos + cl) =~= text@.take(pos as int) + content_s);
        }
        match line_break {
            Some(break_info) => {
                let ghost u = LexemeView::LineBreak(break_info@);
                let ghost units_before = units_of(lexemes@);
                proof {
                    let nl = line_s.len() as int;
                    // Which break was extracted follows from the shape of the line.
                    if nl >= 2 && line_s[nl - 2] == '\r' && line_s[nl - 1] == '\n' {
                        assert(cl == nl - 2);
                        assert(line_s =~= line_s.take(nl - 2) + seq![
                            line_s[nl - 2],
                            line_s[nl - 1],
                        ]);
                        assert(u.chars() =~= seq![line_s[nl - 2], line_s[nl - 1]]);
                    } else {
                        assert(nl >= 1 && line_s[nl - 1] == '\n');
                        assert(cl == nl - 1);
                        assert(line_s =~= line_s.take(nl - 1) + seq![line_s[nl - 1]]);
                        assert(u.chars() =~= seq![line_s[nl - 1]]);
                        // A lone '\n' break follows no '\r': the line did not
                        // end with the two-character sequence.
                        if cl >= 1 {
                            assert(content_s[cl - 1] == line_s[nl - 2]);
                            assert(line_s[nl - 2] != '\r');
                        }
                    }
                    assert(line_s =~= content_s + u.chars());
                    if cl == 0 && lexemes@.len() > 0 {
                        // The previous unit is the preceding line's break,
                        // which ends in '\n', never in '\r'.
                        lemma_stream_wf_last_break_chars(units_before);
                    }
                    lemma_reconstruct_push(units_before, u);
                    assert(line_s =~= text@.subrange(pos as int, line_end as int));
                    assert(text@.take(line_end as int) =~= text@.take(pos + cl) + u.chars());
                    lemma_stream_wf_push(units_before, u);
                    assert(units_of(lexemes@.push(Lexeme::LineBreak(break_info))) =~= units_before.push(
                        u,
                    ));
                }
                lexemes.push(Lexeme::LineBreak(break_info));
                line_number = line_number + 1;
                pos = line_end;
            },
            None => {
                proof {
                    // Without a trailing break the scan reached the end of
                    // the text: the whole line is content.
                    assert(line_s =~= text@.subrange(pos as int, line_end as int));
                    if (line_end as int) < n {
                        assert(line_s[line_s.len() - 1] == text@[line_end - 1]);
                        assert(false);
                    }
                    assert(cl == line_s.len());
                    assert(text@.take(pos + cl) == text@.take(line_end as int));
                }
                pos = line_end;
            },
        }
    }
    proof {
        assert(text@.take(n as int) =~= text@);
    }
    LexemeFile { lexemes }
}

} // verus!
