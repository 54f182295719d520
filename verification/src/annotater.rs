//! Annotates a tokenized file produced by the lexer.
//!
//! A single left-to-right scan assigns highlight metadata to tokens that
//! open, close, or lie inside comment regions. Comments may nest: each
//! opener `/*` receives a fresh id in encounter order, and each closer `*/`
//! resolves the most recently opened, still-unclosed opener. A closer with
//! no open comment is left inert, and openers never closed keep their id
//! without contributing to the matched-pair count.

use vstd::prelude::*;

use crate::lexer::{Lexeme, LexemeFile, LexemeView};

verus! {

/// The opening comment marker `/*`.
pub open spec fn opener() -> Seq<char> {
    seq!['/', '*']
}

/// The closing comment marker `*/`.
pub open spec fn closer() -> Seq<char> {
    seq!['*', '/']
}

/// The highlight class given to comment tokens.
pub open spec fn comment_class() -> Seq<char> {
    "comment"@
}

/// Holds when a unit is a text token whose whole run is the opener marker.
pub open spec fn is_opener(u: LexemeView) -> bool {
    u is Text && u.chars() == opener()
}

/// Holds when a unit is a text token whose whole run is the closer marker.
pub open spec fn is_closer(u: LexemeView) -> bool {
    u is Text && u.chars() == closer()
}

/// Mathematical content of an [`Annotation`].
#[verifier::ext_equal]
pub ghost struct AnnotationView {
    /// The highlight class, if any.
    pub highlight: Option<Seq<char>>,
    /// The comment-pair id, if any.
    pub comment_id: Option<nat>,
}

/// Mathematical content of an [`AnnotatedToken`].
#[verifier::ext_equal]
pub ghost struct AnnotatedTokenView {
    /// The underlying unit.
    pub token: LexemeView,
    /// Its annotation, if any.
    pub annotation: Option<AnnotationView>,
}

/// Mathematical content of an [`AnnotatedFile`].
#[verifier::ext_equal]
pub ghost struct AnnotatedFileView {
    /// The annotated units, in input order.
    pub tokens: Seq<AnnotatedTokenView>,
    /// How many closer tokens found an open comment to resolve.
    pub num_matched_comments: nat,
}

/// The scan state of the annotator: the ids of the currently open comments
/// with the most recently opened last, the next unused id, and the count of
/// matched delimiter pairs so far.
#[verifier::ext_equal]
pub ghost struct AnnState {
    /// Ids of open comments, in opening order.
    pub open_ids: Seq<nat>,
    /// The next id to assign to an opener.
    pub next_id: nat,
    /// Closers that found a non-empty stack so far.
    pub matched: nat,
}

/// The scan state before any unit has been read.
pub open spec fn ann_state_init() -> AnnState {
    AnnState { open_ids: seq![], next_id: 0, matched: 0 }
}

/// How scanning one unit changes the state: an opener pushes the next
/// unused id; a closer pops the most recent open id, if there is one, and
/// counts a matched pair; every other unit leaves the state unchanged.
pub open spec fn ann_step(s: AnnState, u: LexemeView) -> AnnState {
    if is_opener(u) {
        AnnState { open_ids: s.open_ids.push(s.next_id), next_id: s.next_id + 1, matched: s.matched }
    } else if is_closer(u) {
        if s.open_ids.len() > 0 {
            AnnState { open_ids: s.open_ids.drop_last(), next_id: s.next_id, matched: s.matched + 1 }
        } else {
            s
        }
    } else {
        s
    }
}

/// The annotation a unit receives when scanned in state `s`: an opener is
/// highlighted with its fresh id; a closer with the id it resolves, or
/// nothing when no comment is open; any other unit is highlighted without
/// an id exactly when at least one comment is open.
pub open spec fn ann_of(s: AnnState, u: LexemeView) -> Option<AnnotationView> {
    if is_opener(u) {
        Some(AnnotationView { highlight: Some(comment_class()), comment_id: Some(s.next_id) })
    } else if is_closer(u) {
        if s.open_ids.len() > 0 {
            Some(
                AnnotationView {
                    highlight: Some(comment_class()),
                    comment_id: Some(s.open_ids.last()),
                },
            )
        } else {
            None
        }
    } else if s.open_ids.len() > 0 {
        Some(AnnotationView { highlight: Some(comment_class()), comment_id: None })
    } else {
        None
    }
}

/// The scan state after the first `i` units of `units`.
pub open spec fn ann_state_at(units: Seq<LexemeView>, i: int) -> AnnState
    decreases i,
{
    if i <= 0 {
        ann_state_init()
    } else {
        ann_step(ann_state_at(units, i - 1), units[i - 1])
    }
}

/// The annotated stream the scan produces from `units`: each unit paired
/// with the annotation it receives in the state it is scanned in, plus the
/// total count of matched comment-delimiter pairs.
pub open spec fn annotate_spec(units: Seq<LexemeView>) -> AnnotatedFileView {
    AnnotatedFileView {
        tokens: Seq::new(
            units.len(),
            |i: int|
                AnnotatedTokenView {
                    token: units[i],
                    annotation: ann_of(ann_state_at(units, i), units[i]),
                },
        ),
        num_matched_comments: ann_state_at(units, units.len() as int).matched,
    }
}

/// Ids, counts and the stack of the scan state never exceed the number of
/// units scanned so far.
pub proof fn lemma_ann_state_bounds(units: Seq<LexemeView>, i: int)
    requires
        0 <= i,
    ensures
        ann_state_at(units, i).next_id <= i,
        ann_state_at(units, i).matched <= i,
        ann_state_at(units, i).open_ids.len() <= i,
    decreases i,
{
    if i > 0 {
        lemma_ann_state_bounds(units, i - 1);
    }
}

/// Annotating a token stream is deterministic: the annotated stream and
/// matched-pair count are a function of the input units alone, so two
/// annotations of the same stream are identical.
pub proof fn lemma_annotate_deterministic(
    units: Seq<LexemeView>,
    a: AnnotatedFileView,
    b: AnnotatedFileView,
)
    requires
        a == annotate_spec(units),
        b == annotate_spec(units),
    ensures
        a == b,
{
    assert(a =~~= b);
}

/// Highlight metadata for one token.
#[derive(Debug, PartialEq, Eq, Hash)]
pub struct Annotation {
    /// The class name used for syntax highlighting this token.
    highlight: Option<String>,
    /// The Id number for a comment's opening or closing token.
    comment_id: Option<usize>,
}

impl View for Annotation {
    type V = AnnotationView;

    closed spec fn view(&self) -> AnnotationView {
        AnnotationView {
            highlight: match self.highlight {
                Some(s) => Some(s@),
                None => None,
            },
            comment_id: match self.comment_id {
                Some(i) => Some(i as nat),
                None => None,
            },
        }
    }
}

impl Clone for Annotation {
    fn clone(&self) -> (r: Self)
        ensures
            r == *self,
    {
        Annotation {
            highlight: match &self.highlight {
                Some(s) => Some(s.clone()),
                None => None,
            },
            comment_id: self.comment_id,
        }
    }
}

impl Annotation {
    /// Returns the name of the class used for syntax highlighting this token.
    pub fn highlight(&self) -> (r: Option<&str>)
        ensures
            match self@.highlight {
                Some(h) => r matches Some(s) && s@ == h,
                None => r is None,
            },
    {
        match &self.highlight {
            Some(s) => Some(s.as_str()),
            None => None,
        }
    }

    /// Returns the id of the comment, if present.
    pub fn comment_id(&self) -> (r: Option<usize>)
        ensures
            match self@.comment_id {
                Some(i) => r matches Some(x) && x as nat == i,
                None => r is None,
            },
    {
        self.comment_id
    }
}

/// A token with annotations.
#[derive(Debug, PartialEq, Eq, Hash)]
pub struct AnnotatedToken {
    /// The base token.
    token: Lexeme,
    /// Annotated information about the token, if present.
    annotation: Option<Annotation>,
}

impl View for AnnotatedToken {
    type V = AnnotatedTokenView;

    closed spec fn view(&self) -> AnnotatedTokenView {
        AnnotatedTokenView {
            token: self.token@,
            annotation: match self.annotation {
                Some(a) => Some(a@),
                None => None,
            },
        }
    }
}

impl Clone for AnnotatedToken {
    fn clone(&self) -> (r: Self)
        ensures
            r == *self,
    {
        AnnotatedToken {
            token: self.token.clone(),
            annotation: match &self.annotation {
                Some(a) => Some(a.clone()),
                None => None,
            },
        }
    }
}

impl AnnotatedToken {
    /// Returns a reference to the underlying token.
    pub fn token(&self) -> (r: &Lexeme)
        ensures
            r@ == self@.token,
    {
        &self.token
    }

    /// Returns the annotation as an optional reference.
    pub fn annotation(&self) -> (r: Option<&Annotation>)
        ensures
            match self@.annotation {
                Some(a) => r matches Some(x) && x@ == a,
                None => r is None,
            },
    {
        self.annotation.as_ref()
    }
}

/// A file of tokens along with their annotations.
#[derive(Debug, PartialEq, Eq, Hash)]
pub struct AnnotatedFile {
    /// The annotated tokens corresponding to the file.
    tokens: Vec<AnnotatedToken>,
    /// The number of pairs of matching comment delimiters.
    num_matched_comments: usize,
}

impl View for AnnotatedFile {
    type V = AnnotatedFileView;

    closed spec fn view(&self) -> AnnotatedFileView {
        AnnotatedFileView {
            tokens: Seq::new(self.tokens@.len(), |i: int| self.tokens@[i]@),
            num_matched_comments: self.num_matched_comments as nat,
        }
    }
}

impl AnnotatedFile {
    /// Returns the number of matching comment delimiters in this file.
    pub fn num_comments(&self) -> (r: usize)
        ensures
            r == self@.num_matched_comments,
    {
        self.num_matched_comments
    }

    /// Annotates every token of `tokenized_file` in one scan and reports
    /// the number of matched comment-delimiter pairs.
    pub fn annotate(tokenized_file: &LexemeFile) -> (r: Self)
        ensures
            r@ == annotate_spec(tokenized_file@),
    {
        AnnotationBuilder::new(tokenized_file).build()
    }

    /// Reference to the annotated tokens of this file.
    pub fn tokens(&self) -> (r: &Vec<AnnotatedToken>)
        ensures
            r@.len() == self@.tokens.len(),
            forall|i: int| 0 <= i < r@.len() ==> (#[trigger] r@[i])@ == self@.tokens[i],
    {
        &self.tokens
    }
}

/// Returns whether the characters of `s` are exactly the two characters
/// `a` then `b`.
fn is_marker(s: &str, a: char, b: char) -> (r: bool)
    ensures
        r <==> s@ == seq![a, b],
{
    let n = s.unicode_len();
    if n == 2 {
        let c0 = s.get_char(0);
        let c1 = s.get_char(1);
        proof {
            if c0 == a && c1 == b {
                assert(s@ =~= seq![a, b]);
            }
        }
        c0 == a && c1 == b
    } else {
        proof {
            assert(s@.len() != seq![a, b].len());
        }
        false
    }
}

/// Walks the tokens of one file, building up the annotated tokens and the
/// scan state one unit at a time.
struct AnnotationBuilder<'a> {
    /// How many tokens have been scanned.
    index: usize,
    /// The next unused comment id.
    comment_id: usize,
    /// Closers so far that resolved an open comment.
    num_matched_comments: usize,
    /// The first `usize` is the index in `annotated_tokens` of the open comment token.
    /// The second `usize` is the comment id of the comment.
    open_comments: Vec<(usize, usize)>,
    /// The tokens being scanned.
    original_tokens: &'a LexemeFile,
    /// The annotated tokens produced so far.
    annotated_tokens: Vec<AnnotatedToken>,
}

impl<'a> AnnotationBuilder<'a> {
    /// The builder's fields agree with the scan state after `index` units.
    spec fn wf(&self) -> bool {
        let units = self.original_tokens@;
        let st = ann_state_at(units, self.index as int);
        &&& self.index <= units.len()
        &&& self.annotated_tokens@.len() == self.index
        &&& (forall|i: int|
            0 <= i < self.index ==> (#[trigger] self.annotated_tokens@[i])@ == annotate_spec(
                units,
            ).tokens[i])
        &&& self.comment_id == st.next_id
        &&& self.num_matched_comments == st.matched
        &&& self.open_comments@.len() == st.open_ids.len()
        &&& (forall|i: int|
            0 <= i < st.open_ids.len() ==> (#[trigger] self.open_comments@[i]).1 as nat
                == st.open_ids[i])
    }

    /// Starts a scan of `original_tokens` with no unit read yet.
    fn new(original_tokens: &'a LexemeFile) -> (r: Self)
        ensures
            r.wf(),
            r.index == 0,
            r.original_tokens == original_tokens,
    {
        Self {
            index: 0,
            comment_id: 0,
            num_matched_comments: 0,
            open_comments: Vec::new(),
            original_tokens,
            annotated_tokens: Vec::new(),
        }
    }

    /// Scans one unit: annotates it, updates the open-comment stack and the
    /// counters, and reports whether any units remain.
    fn step(&mut self) -> (more: bool)
        requires
            old(self).wf(),
            old(self).index < old(self).original_tokens@.len(),
        ensures
            final(self).wf(),
            final(self).original_tokens == old(self).original_tokens,
            final(self).index == old(self).index + 1,
            more == (final(self).index < final(self).original_tokens@.len()),
    {
        let ghost units = self.original_tokens@;
        let ghost st = ann_state_at(units, self.index as int);
        proof {
            lemma_ann_state_bounds(units, self.index as int);
        }
        let original: &'a LexemeFile = self.original_tokens;
        let lexemes = original.lexemes();
        let n = lexemes.len();
        let token = lexemes[self.index].clone();
        let (is_open, is_close) = match &token {
            Lexeme::Text(info) => {
                let c = info.characters();
                (is_marker(c, '/', '*'), is_marker(c, '*', '/'))
            },
            _ => (false, false),
        };
        proof {
            assert(token@ == units[self.index as int]);
            assert(is_open == is_opener(units[self.index as int]));
            assert(is_close == is_closer(units[self.index as int]));
            assert(ann_state_at(units, self.index + 1) == ann_step(st, units[self.index as int]));
        }
        if is_open {
            let annotated_token = AnnotatedToken {
                token,
                annotation: Some(
                    Annotation {
                        highlight: Some(String::from_str("comment")),
                        comment_id: Some(self.comment_id),
                    },
                ),
            };
            self.annotated_tokens.push(annotated_token);
            self.open_comments.push((self.index, self.comment_id));
            self.comment_id = self.comment_id + 1;
        } else if is_close {
            let popped = self.open_comments.pop();
            match popped {
                Some(p) => {
                    self.num_matched_comments = self.num_matched_comments + 1;
                    self.annotated_tokens.push(
                        AnnotatedToken {
                            token,
                            annotation: Some(
                                Annotation {
                                    highlight: Some(String::from_str("comment")),
                                    comment_id: Some(p.1),
                                },
                            ),
                        },
                    );
                },
                None => {
                    // An unmatched closer is deliberately left inert rather
                    // than reported as an error.
                    self.annotated_tokens.push(AnnotatedToken { token, annotation: None });
                },
            }
        } else {
            // Any unit strictly inside an open comment is highlighted,
            // whatever its kind; outside one it is left bare.
            let annotation = if self.open_comments.len() == 0 {
                None
            } else {
                Some(Annotation { highlight: Some(String::from_str("comment")), comment_id: None })
            };
            self.annotated_tokens.push(AnnotatedToken { token, annotation });
        }
        self.index = self.index + 1;
        proof {
            let i = self.index - 1;
            assert(self.annotated_tokens@[i]@ == annotate_spec(units).tokens[i]);
        }
        self.index < n
    }

    /// Scans every unit and returns the annotated file.
    fn build(self) -> (r: AnnotatedFile)
        requires
            self.wf(),
            self.index == 0,
        ensures
            r@ == annotate_spec(self.original_tokens@),
    {
        let ghost units = self.original_tokens@;
        let mut b = self;
        let n = b.original_tokens.lexemes().len();
        while b.index < n
            invariant
                b.wf(),
                b.original_tokens@ == units,
                n == units.len(),
            decreases n - b.index,
        {
            b.step();
        }
        let r = AnnotatedFile {
            tokens: b.annotated_tokens,
            num_matched_comments: b.num_matched_comments,
        };
        proof {
            assert(r@.tokens =~= annotate_spec(units).tokens);
            assert(r@ =~~= annotate_spec(units));
        }
        r
    }
}

} // verus!

