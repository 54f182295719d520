//! Text transformations used when rendering a parsed RMS file to a
//! debugging HTML document.
//!
//! The markup convention for a text token is fixed: a span whose class list
//! is the base class, then the annotation's highlight class if present,
//! then a `comment-<id>` class when a comment id is present, wrapping the
//! escaped token text and a card showing the token's column range. A
//! styling layer can rely on this convention, for example to highlight both
//! delimiters of a matched comment pair together.

use vstd::prelude::*;

use crate::annotater::{AnnotatedToken, AnnotatedTokenView, AnnotationView};
use crate::lexer::{Lexeme, LexemeView};

verus! {

/// How one character appears in HTML text: `<` and `>` become character
/// references; every other character stands for itself.
pub open spec fn escape_char(c: char) -> Seq<char> {
    if c == '<' {
        "&lt;"@
    } else if c == '>' {
        "&gt;"@
    } else {
        seq![c]
    }
}

/// The text with every character replaced by its HTML form.
pub open spec fn escape_spec(s: Seq<char>) -> Seq<char>
    decreases s.len(),
{
    if s.len() == 0 {
        Seq::empty()
    } else {
        escape_spec(s.drop_last()) + escape_char(s.last())
    }
}

/// Replaces characters in `s` so that they show up in html.
///
/// Performs the following replacements:
///
/// - `<` to `&lt;`
/// - `>` to `&gt;`
pub fn transform_text_to_html(s: &str) -> (r: String)
    ensures
        r@ == escape_spec(s@),
{
    let n = s.unicode_len();
    let mut out = String::new();
    let mut i: usize = 0;
    while i < n
        invariant
            i <= n,
            n == s@.len(),
            out@ == escape_spec(s@.take(i as int)),
        decreases n - i,
    {
        let c = s.get_char(i);
        if c == '<' {
            out.append("&lt;");
        } else if c == '>' {
            out.append("&gt;");
        } else {
            out.append(s.substring_char(i, i + 1));
            proof {
                assert(s@.subrange(i as int, i + 1) =~= seq![s@[i as int]]);
            }
        }
        proof {
            assert(s@.take(i + 1).drop_last() =~= s@.take(i as int));
            assert(s@.take(i + 1).last() == s@[i as int]);
        }
        i = i + 1;
    }
    proof {
        assert(s@.take(n as int) =~= s@);
    }
    out
}

/// The decimal digit character for `d`.
pub open spec fn digit_char(d: nat) -> char {
    if d == 0 {
        '0'
    } else if d == 1 {
        '1'
    } else if d == 2 {
        '2'
    } else if d == 3 {
        '3'
    } else if d == 4 {
        '4'
    } else if d == 5 {
        '5'
    } else if d == 6 {
        '6'
    } else if d == 7 {
        '7'
    } else if d == 8 {
        '8'
    } else {
        '9'
    }
}

/// The decimal representation of `n`, most significant digit first, with
/// no leading zeros (`0` itself is the single digit `0`).
pub open spec fn decimal_spec(n: nat) -> Seq<char>
    decreases n,
{
    if n < 10 {
        seq![digit_char(n)]
    } else {
        decimal_spec(n / 10) + seq![digit_char(n % 10)]
    }
}

/// Returns the decimal digit `d` as a string.
fn digit_str(d: usize) -> (r: &'static str)
    requires
        d < 10,
    ensures
        r@ == seq![digit_char(d as nat)],
{
    proof {
        reveal_strlit("0");
        reveal_strlit("1");
        reveal_strlit("2");
        reveal_strlit("3");
        reveal_strlit("4");
        reveal_strlit("5");
        reveal_strlit("6");
        reveal_strlit("7");
        reveal_strlit("8");
        reveal_strlit("9");
        assert("0"@ =~= seq!['0']);
        assert("1"@ =~= seq!['1']);
        assert("2"@ =~= seq!['2']);
        assert("3"@ =~= seq!['3']);
        assert("4"@ =~= seq!['4']);
        assert("5"@ =~= seq!['5']);
        assert("6"@ =~= seq!['6']);
        assert("7"@ =~= seq!['7']);
        assert("8"@ =~= seq!['8']);
        assert("9"@ =~= seq!['9']);
    }
    if d == 0 {
        "0"
    } else if d == 1 {
        "1"
    } else if d == 2 {
        "2"
    } else if d == 3 {
        "3"
    } else if d == 4 {
        "4"
    } else if d == 5 {
        "5"
    } else if d == 6 {
        "6"
    } else if d == 7 {
        "7"
    } else if d == 8 {
        "8"
    } else {
        "9"
    }
}

/// Appends the decimal representation of `n` to `out`.
fn append_decimal(out: &mut String, n: usize)
    ensures
        final(out)@ == old(out)@ + decimal_spec(n as nat),
    decreases n,
{
    if n < 10 {
        out.append(digit_str(n));
    } else {
        append_decimal(out, n / 10);
        out.append(digit_str(n % 10));
        proof {
            assert(out@ =~= old(out)@ + decimal_spec(n as nat));
        }
    }
}

/// The class-list suffix an annotation contributes to a token's span: a
/// space and the highlight class when one is present, then a space and
/// `comment-<id>` when a comment id is present.
pub open spec fn highlight_classes_spec(a: Option<AnnotationView>) -> Seq<char> {
    match a {
        Some(ann) => (match ann.highlight {
            Some(h) => " "@ + h,
            None => Seq::<char>::empty(),
        }) + (match ann.comment_id {
            Some(id) => " comment-"@ + decimal_spec(id),
            None => Seq::<char>::empty(),
        }),
        None => Seq::<char>::empty(),
    }
}

/// The column-range text shown on a token's card: the start column alone,
/// or the start and end columns joined by an en dash when they differ.
pub open spec fn range_display_spec(start: nat, end: nat) -> Seq<char> {
    if start == end {
        decimal_spec(start)
    } else {
        decimal_spec(start) + "&ndash;"@ + decimal_spec(end)
    }
}

/// The markup for one annotated text token: a span carrying the base class
/// and the annotation's classes, the escaped token text, and a card with
/// the token's column range. Whitespace and line-break units have no card.
pub open spec fn annotation_card_spec(t: AnnotatedTokenView) -> Option<Seq<char>> {
    match t.token {
        LexemeView::Text(info) => Some(
            "<span class=\"code-item"@ + highlight_classes_spec(t.annotation) + "\">"@
                + escape_spec(info.characters) + "<div class=\"card\"><div>"@
                + range_display_spec(info.start_column, info.end_column) + "</div></div></span>"@,
        ),
        _ => None,
    }
}

/// Builds the markup for one annotated token: the span described by
/// [`annotation_card_spec`] for a text token, `None` for any other unit.
pub fn annotation_card(token: &AnnotatedToken) -> (r: Option<String>)
    ensures
        match annotation_card_spec(token@) {
            Some(s) => r matches Some(x) && x@ == s,
            None => r is None,
        },
{
    match token.token() {
        Lexeme::Text(token_info) => {
            let mut out = String::from_str("<span class=\"code-item");
            match token.annotation() {
                Some(annotation) => {
                    match annotation.highlight() {
                        Some(h) => {
                            out.append(" ");
                            out.append(h);
                        },
                        None => {},
                    }
                    match annotation.comment_id() {
                        Some(id) => {
                            out.append(" comment-");
                            append_decimal(&mut out, id);
                        },
                        None => {},
                    }
                },
                None => {},
            }
            out.append("\">");
            let html = transform_text_to_html(token_info.characters());
            out.append(html.as_str());
            out.append("<div class=\"card\"><div>");
            let start = token_info.start_column();
            let end = token_info.end_column();
            if start == end {
                append_decimal(&mut out, start);
            } else {
                append_decimal(&mut out, start);
                out.append("&ndash;");
                append_decimal(&mut out, end);
            }
            out.append("</div></div></span>");
            proof {
                let s = annotation_card_spec(token@)->Some_0;
                assert(out@ =~= s);
            }
            Some(out)
        },
        _ => None,
    }
}

} // verus!
