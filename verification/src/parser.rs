//! The grammar of rules, read from bytes.
//!
//! ```text
//! expr  := call | quote
//! quote := '"' (any byte except '"')* '"'
//! name  := one or more of 'a'..='z'
//! args  := '(' [ expr (',' expr)* ] ')'
//! call  := name args
//! ```
//!
//! Blank space may stand around `(`, `,` and `)` and around each expression.
//! Every function here starts at a byte offset and answers with what it read
//! and the offset behind it, or with the offset at which it could not go on.

use vstd::prelude::*;
use vstd::slice::slice_subrange;
use vstd::utf8::{decode_utf8, is_char_boundary, is_char_boundary_start_end_of_seq, valid_utf8};
use crate::expr::{expr_views, lemma_call_args, Call, CallView, Expr, ExprView};
use crate::text::{
    ascii_text, blank, bytes_to_string, is_blank, lemma_ascii_boundary, lemma_ascii_is_utf8,
    lemma_boundary_behind_ascii, lemma_valid_between, text_of,
};

verus! {

/// The byte `"`.
pub const QUOTE: u8 = 0x22;

/// The byte `(`.
pub const OPEN: u8 = 0x28;

/// The byte `)`.
pub const CLOSE: u8 = 0x29;

/// The byte `,`.
pub const COMMA: u8 = 0x2c;

/// The kinds of byte that the grammar reads in runs.
#[derive(Clone, Copy, Debug, PartialEq, Eq, Structural)]
pub enum ByteClass {
    /// Space, tab, carriage return and line feed.
    Blank,
    /// The lower-case letters `a` to `z`.
    Letter,
    /// Every byte but the double quote.
    Quoted,
}

impl ByteClass {
    /// Whether `b` belongs to the class.
    pub open spec fn holds(self, b: u8) -> bool {
        match self {
            ByteClass::Blank => is_blank(b),
            ByteClass::Letter => 0x61 <= b <= 0x7a,
            ByteClass::Quoted => b != QUOTE,
        }
    }

    /// Tells whether `b` belongs to the class.
    pub fn has(self, b: u8) -> (r: bool)
        ensures
            r == self.holds(b),
    {
        match self {
            ByteClass::Blank => blank(b),
            ByteClass::Letter => 0x61 <= b && b <= 0x7a,
            ByteClass::Quoted => b != QUOTE,
        }
    }
}

/// The offset at which the run of bytes of `class` that starts at `i` ends:
/// the first offset from `i` on that holds a byte of another class, or the
/// end of `s`.
pub open spec fn run_end(s: Seq<u8>, i: int, class: ByteClass) -> int
    decreases s.len() - i,
{
    if 0 <= i < s.len() && class.holds(s[i]) {
        run_end(s, i + 1, class)
    } else {
        i
    }
}

/// A run ends at or behind its start, within the input, with every byte up
/// to there in the class and the byte there, if any, outside it.
pub proof fn lemma_run_end(s: Seq<u8>, i: int, class: ByteClass)
    requires
        0 <= i <= s.len(),
    ensures
        i <= run_end(s, i, class) <= s.len(),
        forall|k: int| i <= k < run_end(s, i, class) ==> class.holds(#[trigger] s[k]),
        run_end(s, i, class) < s.len() ==> !class.holds(s[run_end(s, i, class)]),
    decreases s.len() - i,
{
    if i < s.len() && class.holds(s[i]) {
        lemma_run_end(s, i + 1, class);
    }
}

/// Finds the end of the run of bytes of `class` that starts at `start`.
pub fn scan(input: &[u8], start: usize, class: ByteClass) -> (end: usize)
    ensures
        end == run_end(input@, start as int, class),
        start <= end,
        end <= input.len() || end == start,
{
    let mut end: usize = start;
    while end < input.len() && class.has(input[end])
        invariant
            start <= end,
            end <= input.len() || end == start,
            run_end(input@, start as int, class) == run_end(input@, end as int, class),
        decreases input.len() - end,
    {
        end += 1;
    }
    end
}

/// What was read, with the offset behind it, or the offset where reading stopped.
pub type Parsed<T> = Result<(T, int), int>;

/// A quoted string at `i`: the text between the quote at `i` and the next one.
pub open spec fn parsed_quote(s: Seq<u8>, i: int) -> Parsed<Seq<char>> {
    if 0 <= i < s.len() && s[i] == QUOTE {
        let j = run_end(s, i + 1, ByteClass::Quoted);
        if j < s.len() {
            Ok((text_of(s.subrange(i + 1, j)), j + 1))
        } else {
            Err(i)
        }
    } else {
        Err(i)
    }
}

/// A name at `i`: the run of lower-case letters there, which must not be empty.
pub open spec fn parsed_name(s: Seq<u8>, i: int) -> Parsed<Seq<char>> {
    let j = run_end(s, i, ByteClass::Letter);
    if i < j {
        Ok((ascii_text(s.subrange(i, j)), j))
    } else {
        Err(i)
    }
}

/// The model of what a function of this grammar returns for a piece of text.
pub open spec fn text_view(result: Result<(String, usize), usize>) -> Parsed<Seq<char>> {
    match result {
        Ok((text, next)) => Ok((text@, next as int)),
        Err(at) => Err(at as int),
    }
}

/// Reads a quoted string: a quote, then bytes other than a quote, then a quote.
pub fn quote(input: &[u8], start: usize) -> (result: Result<(String, usize), usize>)
    ensures
        text_view(result) == parsed_quote(input@, start as int),
{
    if start < input.len() && input[start] == QUOTE {
        let end = scan(input, start + 1, ByteClass::Quoted);
        if end < input.len() {
            Ok((bytes_to_string(slice_subrange(input, start + 1, end)), end + 1))
        } else {
            Err(start)
        }
    } else {
        Err(start)
    }
}

/// Reads a name: one or more lower-case letters.
pub fn name(input: &[u8], start: usize) -> (result: Result<(String, usize), usize>)
    ensures
        text_view(result) == parsed_name(input@, start as int),
{
    let end = scan(input, start, ByteClass::Letter);
    if start < end {
        proof {
            lemma_run_end(input@, start as int, ByteClass::Letter);
            lemma_ascii_is_utf8(input@.subrange(start as int, end as int));
        }
        Ok((bytes_to_string(slice_subrange(input, start, end)), end))
    } else {
        Err(start)
    }
}

/// An expression at `i`, with blank space on either side: a quoted string
/// where a quote comes first, else a call.
pub open spec fn parsed_expr(s: Seq<u8>, i: int) -> Parsed<ExprView>
    decreases s.len() - i, 3int,
    via parsed_expr_decreases
{
    let j = run_end(s, i, ByteClass::Blank);
    if 0 <= j < s.len() && s[j] == QUOTE {
        match parsed_quote(s, j) {
            Ok((text, k)) => Ok((ExprView::Quote(text), run_end(s, k, ByteClass::Blank))),
            Err(at) => Err(at),
        }
    } else {
        match parsed_call(s, j) {
            Ok((call, k)) => Ok((ExprView::Call(call), run_end(s, k, ByteClass::Blank))),
            Err(at) => Err(at),
        }
    }
}

#[via_fn]
proof fn parsed_expr_decreases(s: Seq<u8>, i: int) {
    if 0 <= i <= s.len() {
        lemma_run_end(s, i, ByteClass::Blank);
    }
}

/// A call at `i`: a name, then its arguments.
pub open spec fn parsed_call(s: Seq<u8>, i: int) -> Parsed<CallView>
    decreases s.len() - i, 2int,
    via parsed_call_decreases
{
    match parsed_name(s, i) {
        Ok((name, j)) => match parsed_args(s, j) {
            Ok((args, k)) => Ok((CallView { name, args }, k)),
            Err(at) => Err(at),
        },
        Err(at) => Err(at),
    }
}

#[via_fn]
proof fn parsed_call_decreases(s: Seq<u8>, i: int) {
    if 0 <= i <= s.len() {
        lemma_run_end(s, i, ByteClass::Letter);
    }
}

/// An argument list at `i`: `(`, the arguments with `,` between them, and
/// `)`, each with blank space on either side.
pub open spec fn parsed_args(s: Seq<u8>, i: int) -> Parsed<Seq<ExprView>>
    decreases s.len() - i, 1int,
    via parsed_args_decreases
{
    let j = run_end(s, i, ByteClass::Blank);
    if 0 <= j < s.len() && s[j] == OPEN {
        let k = run_end(s, j + 1, ByteClass::Blank);
        if 0 <= k < s.len() && s[k] == CLOSE {
            Ok((Seq::empty(), run_end(s, k + 1, ByteClass::Blank)))
        } else {
            parsed_items(s, k, Seq::empty())
        }
    } else {
        Err(j)
    }
}

#[via_fn]
proof fn parsed_args_decreases(s: Seq<u8>, i: int) {
    if 0 <= i <= s.len() {
        lemma_run_end(s, i, ByteClass::Blank);
        let j = run_end(s, i, ByteClass::Blank);
        if j < s.len() {
            lemma_run_end(s, j + 1, ByteClass::Blank);
        }
    }
}

/// The arguments from `i` on, behind those already read into `front`: an
/// expression, then either `,` and more arguments, or `)`. Each expression
/// takes up at least one byte.
pub open spec fn parsed_items(s: Seq<u8>, i: int, front: Seq<ExprView>) -> Parsed<Seq<ExprView>>
    decreases s.len() - i, 4int,
    via parsed_items_decreases
{
    match parsed_expr(s, i) {
        Ok((item, j)) => {
            if 0 <= i < j < s.len() && s[j] == COMMA {
                parsed_items(s, run_end(s, j + 1, ByteClass::Blank), front.push(item))
            } else if 0 <= i < j < s.len() && s[j] == CLOSE {
                Ok((front.push(item), run_end(s, j + 1, ByteClass::Blank)))
            } else {
                Err(j)
            }
        },
        Err(at) => Err(at),
    }
}

#[via_fn]
proof fn parsed_items_decreases(s: Seq<u8>, i: int, front: Seq<ExprView>) {
    assert forall|j: int| 0 <= i < j < s.len() implies j < #[trigger] run_end(
        s,
        j + 1,
        ByteClass::Blank,
    ) <= s.len() by {
        lemma_run_end(s, j + 1, ByteClass::Blank);
    }
}

/// Whatever is read from an offset within the input ends behind that offset
/// and within the input; where reading stops, it stops no earlier than it
/// started and within the input.
pub proof fn lemma_parsed_expr_bounds(s: Seq<u8>, i: int)
    requires
        0 <= i <= s.len(),
    ensures
        match parsed_expr(s, i) {
            Ok((_, j)) => i < j <= s.len(),
            Err(at) => i <= at <= s.len(),
        },
    decreases s.len() - i, 3int,
{
    lemma_run_end(s, i, ByteClass::Blank);
    let j = run_end(s, i, ByteClass::Blank);
    if j < s.len() && s[j] == QUOTE {
        lemma_run_end(s, j + 1, ByteClass::Quoted);
        if let Ok((_, k)) = parsed_quote(s, j) {
            lemma_run_end(s, k, ByteClass::Blank);
        }
    } else {
        lemma_parsed_call_bounds(s, j);
        if let Ok((_, k)) = parsed_call(s, j) {
            lemma_run_end(s, k, ByteClass::Blank);
        }
    }
}

/// The bounds of [`lemma_parsed_expr_bounds`], for a call.
pub proof fn lemma_parsed_call_bounds(s: Seq<u8>, i: int)
    requires
        0 <= i <= s.len(),
    ensures
        match parsed_call(s, i) {
            Ok((_, j)) => i < j <= s.len(),
            Err(at) => i <= at <= s.len(),
        },
    decreases s.len() - i, 2int,
{
    lemma_run_end(s, i, ByteClass::Letter);
    if let Ok((_, j)) = parsed_name(s, i) {
        lemma_parsed_args_bounds(s, j);
    }
}

/// The bounds of [`lemma_parsed_expr_bounds`], for an argument list.
pub proof fn lemma_parsed_args_bounds(s: Seq<u8>, i: int)
    requires
        0 <= i <= s.len(),
    ensures
        match parsed_args(s, i) {
            Ok((_, j)) => i < j <= s.len(),
            Err(at) => i <= at <= s.len(),
        },
    decreases s.len() - i, 1int,
{
    lemma_run_end(s, i, ByteClass::Blank);
    let j = run_end(s, i, ByteClass::Blank);
    if j < s.len() && s[j] == OPEN {
        lemma_run_end(s, j + 1, ByteClass::Blank);
        let k = run_end(s, j + 1, ByteClass::Blank);
        if k < s.len() && s[k] == CLOSE {
            lemma_run_end(s, k + 1, ByteClass::Blank);
        } else {
            lemma_parsed_items_bounds(s, k, Seq::empty());
        }
    }
}

/// The bounds of [`lemma_parsed_expr_bounds`], for the rest of an argument list.
pub proof fn lemma_parsed_items_bounds(s: Seq<u8>, i: int, front: Seq<ExprView>)
    requires
        0 <= i <= s.len(),
    ensures
        match parsed_items(s, i, front) {
            Ok((_, j)) => i < j <= s.len(),
            Err(at) => i <= at <= s.len(),
        },
    decreases s.len() - i, 4int,
{
    lemma_parsed_expr_bounds(s, i);
    if let Ok((item, j)) = parsed_expr(s, i) {
        if j < s.len() {
            lemma_run_end(s, j + 1, ByteClass::Blank);
            if s[j] == COMMA {
                lemma_parsed_items_bounds(s, run_end(s, j + 1, ByteClass::Blank), front.push(item));
            }
        }
    }
}

/// Blank space before an expression is passed over: reading from `i` and
/// reading from the end of the blank space at `i` come to the same.
pub proof fn lemma_blank_before_expr(s: Seq<u8>, i: int)
    requires
        0 <= i <= s.len(),
    ensures
        parsed_expr(s, i) == parsed_expr(s, run_end(s, i, ByteClass::Blank)),
{
    lemma_run_end(s, i, ByteClass::Blank);
    lemma_run_idempotent(s, i, ByteClass::Blank);
}

/// A run that starts where a run of the same class has ended is empty.
pub proof fn lemma_run_idempotent(s: Seq<u8>, i: int, class: ByteClass)
    requires
        0 <= i <= s.len(),
    ensures
        run_end(s, run_end(s, i, class), class) == run_end(s, i, class),
{
    lemma_run_end(s, i, class);
}

/// Blank space before an argument list is passed over.
pub proof fn lemma_blank_before_args(s: Seq<u8>, i: int)
    requires
        0 <= i <= s.len(),
    ensures
        parsed_args(s, i) == parsed_args(s, run_end(s, i, ByteClass::Blank)),
{
    lemma_run_end(s, i, ByteClass::Blank);
    lemma_run_idempotent(s, i, ByteClass::Blank);
}

/// Blank space behind an expression is passed over: where reading ends, no
/// blank space stands.
pub proof fn lemma_blank_behind_expr(s: Seq<u8>, i: int)
    requires
        0 <= i <= s.len(),
    ensures
        parsed_expr(s, i) matches Ok((_, j)) ==> run_end(s, j, ByteClass::Blank) == j,
{
    lemma_run_end(s, i, ByteClass::Blank);
    let j = run_end(s, i, ByteClass::Blank);
    if j < s.len() && s[j] == QUOTE {
        lemma_run_end(s, j + 1, ByteClass::Quoted);
        if let Ok((_, k)) = parsed_quote(s, j) {
            lemma_run_idempotent(s, k, ByteClass::Blank);
        }
    } else {
        lemma_parsed_call_bounds(s, j);
        if let Ok((_, k)) = parsed_call(s, j) {
            lemma_run_idempotent(s, k, ByteClass::Blank);
        }
    }
}

/// In UTF-8, a run that starts where a character starts ends where one starts.
pub proof fn lemma_run_on_boundary(s: Seq<u8>, i: int, class: ByteClass)
    requires
        valid_utf8(s),
        0 <= i <= s.len(),
        is_char_boundary(s, i),
    ensures
        is_char_boundary(s, run_end(s, i, class)),
    decreases s.len() - i,
{
    lemma_run_end(s, i, class);
    let j = run_end(s, i, class);
    if class == ByteClass::Quoted {
        if j < s.len() {
            lemma_ascii_boundary(s, j);
        } else {
            is_char_boundary_start_end_of_seq(s);
        }
    } else if i < s.len() && class.holds(s[i]) {
        lemma_boundary_behind_ascii(s, i);
        lemma_run_on_boundary(s, i + 1, class);
    }
}

/// In UTF-8, the text of a quoted string is exactly the text that stands
/// between its two quotes, and a character starts behind the second quote.
pub proof fn lemma_quote_in_text(s: Seq<u8>, i: int)
    requires
        valid_utf8(s),
        0 <= i <= s.len(),
    ensures
        parsed_quote(s, i) matches Ok((text, k)) ==> i + 2 <= k <= s.len() && valid_utf8(
            s.subrange(i + 1, k - 1),
        ) && text == decode_utf8(s.subrange(i + 1, k - 1)) && is_char_boundary(s, k),
{
    if let Ok((text, k)) = parsed_quote(s, i) {
        lemma_run_end(s, i + 1, ByteClass::Quoted);
        lemma_boundary_behind_ascii(s, i);
        lemma_ascii_boundary(s, k - 1);
        lemma_boundary_behind_ascii(s, k - 1);
        lemma_valid_between(s, i + 1, k - 1);
    }
}

/// In UTF-8, reading an expression from where a character starts ends, or
/// stops, where a character starts.
pub proof fn lemma_parsed_expr_on_boundary(s: Seq<u8>, i: int)
    requires
        valid_utf8(s),
        0 <= i <= s.len(),
        is_char_boundary(s, i),
    ensures
        match parsed_expr(s, i) {
            Ok((_, j)) => is_char_boundary(s, j),
            Err(at) => is_char_boundary(s, at),
        },
    decreases s.len() - i, 3int,
{
    lemma_run_end(s, i, ByteClass::Blank);
    lemma_run_on_boundary(s, i, ByteClass::Blank);
    let j = run_end(s, i, ByteClass::Blank);
    if j < s.len() && s[j] == QUOTE {
        lemma_quote_in_text(s, j);
        if let Ok((_, k)) = parsed_quote(s, j) {
            lemma_run_on_boundary(s, k, ByteClass::Blank);
        }
    } else {
        lemma_parsed_call_bounds(s, j);
        lemma_parsed_call_on_boundary(s, j);
        if let Ok((_, k)) = parsed_call(s, j) {
            lemma_run_on_boundary(s, k, ByteClass::Blank);
        }
    }
}

/// What [`lemma_parsed_expr_on_boundary`] says, for a call.
pub proof fn lemma_parsed_call_on_boundary(s: Seq<u8>, i: int)
    requires
        valid_utf8(s),
        0 <= i <= s.len(),
        is_char_boundary(s, i),
    ensures
        match parsed_call(s, i) {
            Ok((_, j)) => is_char_boundary(s, j),
            Err(at) => is_char_boundary(s, at),
        },
    decreases s.len() - i, 2int,
{
    lemma_run_end(s, i, ByteClass::Letter);
    lemma_run_on_boundary(s, i, ByteClass::Letter);
    if let Ok((_, j)) = parsed_name(s, i) {
        lemma_parsed_args_on_boundary(s, j);
    }
}

/// What [`lemma_parsed_expr_on_boundary`] says, for an argument list.
pub proof fn lemma_parsed_args_on_boundary(s: Seq<u8>, i: int)
    requires
        valid_utf8(s),
        0 <= i <= s.len(),
        is_char_boundary(s, i),
    ensures
        match parsed_args(s, i) {
            Ok((_, j)) => is_char_boundary(s, j),
            Err(at) => is_char_boundary(s, at),
        },
    decreases s.len() - i, 1int,
{
    lemma_run_end(s, i, ByteClass::Blank);
    lemma_run_on_boundary(s, i, ByteClass::Blank);
    let j = run_end(s, i, ByteClass::Blank);
    if j < s.len() && s[j] == OPEN {
        lemma_boundary_behind_ascii(s, j);
        lemma_run_end(s, j + 1, ByteClass::Blank);
        lemma_run_on_boundary(s, j + 1, ByteClass::Blank);
        let k = run_end(s, j + 1, ByteClass::Blank);
        if k < s.len() && s[k] == CLOSE {
            lemma_boundary_behind_ascii(s, k);
            lemma_run_on_boundary(s, k + 1, ByteClass::Blank);
        } else {
            lemma_parsed_items_on_boundary(s, k, Seq::empty());
        }
    }
}

/// What [`lemma_parsed_expr_on_boundary`] says, for the rest of an argument list.
pub proof fn lemma_parsed_items_on_boundary(s: Seq<u8>, i: int, front: Seq<ExprView>)
    requires
        valid_utf8(s),
        0 <= i <= s.len(),
        is_char_boundary(s, i),
    ensures
        match parsed_items(s, i, front) {
            Ok((_, j)) => is_char_boundary(s, j),
            Err(at) => is_char_boundary(s, at),
        },
    decreases s.len() - i, 4int,
{
    lemma_parsed_expr_bounds(s, i);
    lemma_parsed_expr_on_boundary(s, i);
    if let Ok((item, j)) = parsed_expr(s, i) {
        if j < s.len() && (s[j] == COMMA || s[j] == CLOSE) {
            lemma_boundary_behind_ascii(s, j);
            lemma_run_end(s, j + 1, ByteClass::Blank);
            lemma_run_on_boundary(s, j + 1, ByteClass::Blank);
            if s[j] == COMMA {
                lemma_parsed_items_on_boundary(
                    s,
                    run_end(s, j + 1, ByteClass::Blank),
                    front.push(item),
                );
            }
        }
    }
}

/// The model of what [`expr`] returns.
pub open spec fn expr_result_view(result: Result<(Expr, usize), usize>) -> Parsed<ExprView> {
    match result {
        Ok((expr, next)) => Ok((expr@, next as int)),
        Err(at) => Err(at as int),
    }
}

/// The model of what [`call`] returns.
pub open spec fn call_result_view(result: Result<(Call, usize), usize>) -> Parsed<CallView> {
    match result {
        Ok((call, next)) => Ok((call@, next as int)),
        Err(at) => Err(at as int),
    }
}

/// The model of what [`args`] returns.
pub open spec fn args_result_view(result: Result<(Vec<Expr>, usize), usize>) -> Parsed<
    Seq<ExprView>,
> {
    match result {
        Ok((args, next)) => Ok((expr_views(args@), next as int)),
        Err(at) => Err(at as int),
    }
}

/// Reads an expression: a call or a quoted string, with blank space on either side.
pub fn expr(input: &[u8], start: usize) -> (result: Result<(Expr, usize), usize>)
    ensures
        expr_result_view(result) == parsed_expr(input@, start as int),
    decreases input.len() - start, 3int,
{
    let at = scan(input, start, ByteClass::Blank);
    if at < input.len() && input[at] == QUOTE {
        match quote(input, at) {
            Ok((text, next)) => Ok((Expr::Quote(text), scan(input, next, ByteClass::Blank))),
            Err(stop) => Err(stop),
        }
    } else {
        match call(input, at) {
            Ok((inner, next)) => Ok((Expr::Call(inner), scan(input, next, ByteClass::Blank))),
            Err(stop) => Err(stop),
        }
    }
}

/// Reads a call: a name followed by an argument list.
pub fn call(input: &[u8], start: usize) -> (result: Result<(Call, usize), usize>)
    ensures
        call_result_view(result) == parsed_call(input@, start as int),
    decreases input.len() - start, 2int,
{
    proof {
        if start <= input.len() {
            lemma_run_end(input@, start as int, ByteClass::Letter);
        }
    }
    match name(input, start) {
        Ok((name, next)) => match args(input, next) {
            Ok((args, end)) => {
                let call = Call { name, args };
                proof {
                    lemma_call_args(call);
                }
                Ok((call, end))
            },
            Err(stop) => Err(stop),
        },
        Err(stop) => Err(stop),
    }
}

/// Reads an argument list: expressions between parentheses, with commas between them.
pub fn args(input: &[u8], start: usize) -> (result: Result<(Vec<Expr>, usize), usize>)
    ensures
        args_result_view(result) == parsed_args(input@, start as int),
    decreases input.len() - start, 1int,
{
    let open = scan(input, start, ByteClass::Blank);
    if !(open < input.len() && input[open] == OPEN) {
        return Err(open);
    }
    let mut at = scan(input, open + 1, ByteClass::Blank);
    let mut items: Vec<Expr> = Vec::new();
    if at < input.len() && input[at] == CLOSE {
        assert(expr_views(items@) =~= Seq::<ExprView>::empty());
        return Ok((items, scan(input, at + 1, ByteClass::Blank)));
    }
    assert(expr_views(items@) =~= Seq::<ExprView>::empty());
    loop
        invariant
            start <= open < at <= input.len(),
            parsed_args(input@, start as int) == parsed_items(
                input@,
                at as int,
                expr_views(items@),
            ),
        decreases input.len() - at,
    {
        let ghost front = items@;
        proof {
            lemma_parsed_expr_bounds(input@, at as int);
        }
        match expr(input, at) {
            Ok((item, next)) => {
                items.push(item);
                assert(expr_views(items@) =~= expr_views(front).push(item@));
                if next < input.len() && input[next] == COMMA {
                    at = scan(input, next + 1, ByteClass::Blank);
                } else if next < input.len() && input[next] == CLOSE {
                    return Ok((items, scan(input, next + 1, ByteClass::Blank)));
                } else {
                    return Err(next);
                }
            },
            Err(stop) => {
                return Err(stop);
            },
        }
    }
}

} // verus!
