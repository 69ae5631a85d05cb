//! Expressions written out as rules, and the proof that what is written out
//! reads back as the expression that was written.

use vstd::prelude::*;
use vstd::utf8::{
    decode_utf8_encode_utf8, encode_utf8, encode_utf8_decode_utf8, encode_utf8_valid_utf8,
    is_char_boundary, is_char_boundary_start_end_of_seq, valid_utf8,
};
use crate::expr::{CallView, ExprView};
use crate::parser::{
    lemma_parsed_call_bounds, lemma_parsed_expr_bounds, lemma_parsed_expr_on_boundary,
    lemma_quote_in_text, lemma_run_end, lemma_run_idempotent, lemma_run_on_boundary, parsed_args,
    parsed_call, parsed_expr, parsed_items, parsed_name, parsed_quote, run_end, ByteClass, CLOSE,
    COMMA, OPEN, QUOTE,
};
use crate::rule::{parsed_rule, GrammarErrorView};
use crate::text::{ascii_text, lemma_boundary_behind_ascii};

verus! {

/// Whether `name` can be the name of a call: one or more lower-case letters.
pub open spec fn is_name(name: Seq<char>) -> bool {
    name.len() > 0 && forall|k: int| 0 <= k < name.len() ==> 'a' <= #[trigger] name[k] <= 'z'
}

/// Whether `expr` can be written out: its names are names, and no quoted
/// string holds a double quote.
pub open spec fn writable(expr: ExprView) -> bool
    decreases expr, 0int,
{
    match expr {
        ExprView::Quote(text) => !encode_utf8(text).contains(QUOTE),
        ExprView::Call(call) => writable_call(call),
    }
}

/// Whether `call` can be written out.
pub open spec fn writable_call(call: CallView) -> bool
    decreases call, 0int,
{
    is_name(call.name) && writable_list(call.args)
}

/// Whether each of `exprs` can be written out.
pub open spec fn writable_list(exprs: Seq<ExprView>) -> bool
    decreases exprs, 0int,
{
    exprs.len() > 0 ==> writable(exprs[0]) && writable_list(exprs.drop_first())
}

/// The bytes of a name.
pub open spec fn name_bytes(name: Seq<char>) -> Seq<u8> {
    Seq::new(name.len(), |k: int| name[k] as u8)
}

/// `expr` written out, without blank space.
pub open spec fn rendered(expr: ExprView) -> Seq<u8>
    decreases expr, 0int,
{
    match expr {
        ExprView::Quote(text) => seq![QUOTE] + encode_utf8(text) + seq![QUOTE],
        ExprView::Call(call) => rendered_call(call),
    }
}

/// `call` written out: the name, and the arguments between parentheses.
pub open spec fn rendered_call(call: CallView) -> Seq<u8>
    decreases call, 0int,
{
    name_bytes(call.name) + seq![OPEN] + rendered_list(call.args) + seq![CLOSE]
}

/// `exprs` written out, with a comma between each two.
pub open spec fn rendered_list(exprs: Seq<ExprView>) -> Seq<u8>
    decreases exprs, 0int,
{
    if exprs.len() == 0 {
        Seq::empty()
    } else if exprs.len() == 1 {
        rendered(exprs[0])
    } else {
        rendered(exprs[0]) + seq![COMMA] + rendered_list(exprs.drop_first())
    }
}

/// Whether the bytes `piece` stand in `s` from offset `i` on.
pub open spec fn stands_at(s: Seq<u8>, i: int, piece: Seq<u8>) -> bool {
    0 <= i && i + piece.len() <= s.len() && forall|k: int|
        0 <= k < piece.len() ==> s[i + k] == #[trigger] piece[k]
}

/// A run ends at `j` if every byte from `i` to `j` is of the class and the
/// byte at `j`, if there is one, is not.
proof fn lemma_run_ends_at(s: Seq<u8>, i: int, j: int, class: ByteClass)
    requires
        0 <= i <= j <= s.len(),
        forall|k: int| i <= k < j ==> class.holds(#[trigger] s[k]),
        j < s.len() ==> !class.holds(s[j]),
    ensures
        run_end(s, i, class) == j,
    decreases j - i,
{
    if i < j {
        lemma_run_ends_at(s, i + 1, j, class);
    }
}

/// Where two pieces stand one behind the other, each of them stands.
proof fn lemma_stands_split(s: Seq<u8>, i: int, a: Seq<u8>, b: Seq<u8>)
    requires
        stands_at(s, i, a + b),
    ensures
        stands_at(s, i, a),
        stands_at(s, i + a.len(), b),
{
    let whole = a + b;
    assert forall|k: int| 0 <= k < a.len() implies s[i + k] == #[trigger] a[k] by {
        assert(s[i + k] == whole[k]);
    }
    assert forall|k: int| 0 <= k < b.len() implies s[i + a.len() + k] == #[trigger] b[k] by {
        assert(s[i + (a.len() + k)] == whole[a.len() + k]);
    }
}

/// A written expression starts with a letter or a quote.
proof fn lemma_rendered_start(expr: ExprView)
    requires
        writable(expr),
    ensures
        rendered(expr).len() > 0,
        rendered(expr)[0] == QUOTE || ByteClass::Letter.holds(rendered(expr)[0]),
{
    match expr {
        ExprView::Quote(text) => {},
        ExprView::Call(call) => {
            assert('a' <= call.name[0] <= 'z');
            assert(rendered(expr)[0] == name_bytes(call.name)[0]);
        },
    }
}

/// A written name reads back as the name.
proof fn lemma_name_reads_back(s: Seq<u8>, i: int, name: Seq<char>)
    requires
        is_name(name),
        stands_at(s, i, name_bytes(name)),
        i + name.len() < s.len() ==> !ByteClass::Letter.holds(s[i + name.len()]),
    ensures
        parsed_name(s, i) == Ok::<(Seq<char>, int), int>((name, i + name.len())),
{
    let j = i + name.len();
    assert forall|k: int| i <= k < j implies ByteClass::Letter.holds(#[trigger] s[k]) by {
        assert(s[i + (k - i)] == name_bytes(name)[k - i]);
        assert('a' <= name[k - i] <= 'z');
    }
    lemma_run_ends_at(s, i, j, ByteClass::Letter);
    assert forall|k: int| 0 <= k < name.len() implies ascii_text(s.subrange(i, j))[k]
        == name[k] by {
        assert(s[i + k] == name_bytes(name)[k]);
        assert('a' <= name[k] <= 'z');
    }
    assert(ascii_text(s.subrange(i, j)) =~= name);
}

/// A written quoted string reads back as its text.
proof fn lemma_quote_reads_back(s: Seq<u8>, i: int, text: Seq<char>)
    requires
        writable(ExprView::Quote(text)),
        stands_at(s, i, rendered(ExprView::Quote(text))),
    ensures
        parsed_quote(s, i) == Ok::<(Seq<char>, int), int>(
            (text, i + rendered(ExprView::Quote(text)).len()),
        ),
{
    let body = encode_utf8(text);
    let piece = rendered(ExprView::Quote(text));
    let j = i + 1 + body.len();
    assert(piece[0] == QUOTE);
    assert(s[i + 0] == piece[0]);
    let last = 1 + body.len() as int;
    assert(piece[last] == QUOTE);
    assert(s[i + last] == piece[last]);
    assert forall|k: int| i + 1 <= k < j implies ByteClass::Quoted.holds(#[trigger] s[k]) by {
        assert(s[i + (k - i)] == piece[k - i]);
        assert(piece[k - i] == body[k - i - 1]);
        assert(body.contains(body[k - i - 1]));
    }
    lemma_run_ends_at(s, i + 1, j, ByteClass::Quoted);
    assert forall|k: int| 0 <= k < body.len() implies s.subrange(i + 1, j)[k] == body[k] by {
        assert(s[i + (k + 1)] == piece[k + 1]);
    }
    assert(s.subrange(i + 1, j) =~= body);
    encode_utf8_valid_utf8(text);
    encode_utf8_decode_utf8(text);
}

/// No blank space stands at `j`, so a run of blank space from there is empty.
proof fn lemma_no_blank_at(s: Seq<u8>, j: int)
    requires
        0 <= j < s.len(),
        !ByteClass::Blank.holds(s[j]),
    ensures
        run_end(s, j, ByteClass::Blank) == j,
{
}

/// A written expression reads back as the expression, up to the end of the
/// blank space behind it.
pub proof fn lemma_expr_reads_back(s: Seq<u8>, i: int, expr: ExprView)
    requires
        writable(expr),
        stands_at(s, i, rendered(expr)),
    ensures
        parsed_expr(s, i) == Ok::<(ExprView, int), int>(
            (expr, run_end(s, i + rendered(expr).len(), ByteClass::Blank)),
        ),
    decreases expr, 0int,
{
    lemma_rendered_start(expr);
    assert(s[i + 0] == rendered(expr)[0]);
    lemma_no_blank_at(s, i);
    match expr {
        ExprView::Quote(text) => {
            assert(rendered(expr)[0] == QUOTE);
            lemma_quote_reads_back(s, i, text);
        },
        ExprView::Call(call) => {
            lemma_call_reads_back(s, i, call);
            lemma_run_idempotent(s, i + rendered(expr).len(), ByteClass::Blank);
        },
    }
}

/// A written call reads back as the call, up to the end of the blank space
/// behind it.
pub proof fn lemma_call_reads_back(s: Seq<u8>, i: int, call: CallView)
    requires
        writable_call(call),
        stands_at(s, i, rendered_call(call)),
    ensures
        parsed_call(s, i) == Ok::<(CallView, int), int>(
            (call, run_end(s, i + rendered_call(call).len(), ByteClass::Blank)),
        ),
    decreases call, 0int,
{
    let head = name_bytes(call.name);
    let open = seq![OPEN];
    let list = rendered_list(call.args);
    let close = seq![CLOSE];
    let j = i + head.len();
    assert(rendered_call(call) =~= head + (open + (list + close)));
    lemma_stands_split(s, i, head, open + (list + close));
    lemma_stands_split(s, j, open, list + close);
    assert(s[j + 0] == open[0]);
    lemma_name_reads_back(s, i, call.name);
    lemma_no_blank_at(s, j);
    if call.args.len() == 0 {
        assert(list + close =~= close);
        assert(s[j + 1 + 0] == close[0]);
        lemma_no_blank_at(s, j + 1);
        assert(call.args =~= Seq::<ExprView>::empty());
    } else {
        lemma_list_start(call.args);
        lemma_stands_split(s, j + 1, list, close);
        assert(s[j + 1 + 0] == list[0]);
        lemma_no_blank_at(s, j + 1);
        lemma_items_read_back(s, j + 1, call.args, Seq::empty());
        assert(Seq::<ExprView>::empty() + call.args =~= call.args);
    }
}

/// A written list that is not empty starts as its first expression does.
proof fn lemma_list_start(exprs: Seq<ExprView>)
    requires
        exprs.len() > 0,
        writable_list(exprs),
    ensures
        rendered_list(exprs).len() > 0,
        rendered_list(exprs)[0] == QUOTE || ByteClass::Letter.holds(rendered_list(exprs)[0]),
{
    lemma_rendered_start(exprs[0]);
}

/// Written arguments with their closing parenthesis read back as the
/// arguments, behind those that were read before.
pub proof fn lemma_items_read_back(s: Seq<u8>, i: int, exprs: Seq<ExprView>, front: Seq<ExprView>)
    requires
        exprs.len() > 0,
        writable_list(exprs),
        stands_at(s, i, rendered_list(exprs) + seq![CLOSE]),
    ensures
        parsed_items(s, i, front) == Ok::<(Seq<ExprView>, int), int>(
            (front + exprs, run_end(s, i + rendered_list(exprs).len() + 1, ByteClass::Blank)),
        ),
    decreases exprs, 0int,
{
    let first = rendered(exprs[0]);
    let close = seq![CLOSE];
    let j = i + first.len();
    lemma_rendered_start(exprs[0]);
    if exprs.len() == 1 {
        lemma_stands_split(s, i, first, close);
        lemma_expr_reads_back(s, i, exprs[0]);
        assert(s[j + 0] == close[0]);
        lemma_no_blank_at(s, j);
        assert(front.push(exprs[0]) =~= front + exprs);
    } else {
        let rest = exprs.drop_first();
        let comma = seq![COMMA];
        let tail = rendered_list(rest);
        assert(rendered_list(exprs) + close =~= first + (comma + (tail + close)));
        lemma_stands_split(s, i, first, comma + (tail + close));
        lemma_stands_split(s, j, comma, tail + close);
        lemma_expr_reads_back(s, i, exprs[0]);
        assert(s[j + 0] == comma[0]);
        lemma_no_blank_at(s, j);
        lemma_list_start(rest);
        lemma_stands_split(s, j + 1, tail, close);
        assert(s[j + 1 + 0] == tail[0]);
        lemma_no_blank_at(s, j + 1);
        lemma_items_read_back(s, j + 1, rest, front.push(exprs[0]));
        assert(front.push(exprs[0]) + rest =~= front + exprs);
    }
}

/// Round trip: a call that can be written out, once written, reads back as
/// the same call.
pub proof fn lemma_written_rule_reads_back(call: CallView)
    requires
        writable_call(call),
    ensures
        parsed_rule(rendered_call(call)) == Ok::<CallView, GrammarErrorView>(call),
{
    let s = rendered_call(call);
    assert(stands_at(s, 0, s));
    lemma_call_reads_back(s, 0, call);
}

/// A list that can be written out still can with one more such expression at its end.
proof fn lemma_writable_push(exprs: Seq<ExprView>, last: ExprView)
    requires
        writable_list(exprs),
        writable(last),
    ensures
        writable_list(exprs.push(last)),
    decreases exprs.len(),
{
    let longer = exprs.push(last);
    if exprs.len() == 0 {
        assert(longer.drop_first() =~= Seq::<ExprView>::empty());
        assert(longer[0] == last);
    } else {
        lemma_writable_push(exprs.drop_first(), last);
        assert(longer.drop_first() =~= exprs.drop_first().push(last));
        assert(longer[0] == exprs[0]);
    }
    assert(writable_list(longer.drop_first()));
}

/// In UTF-8, a quoted string that was read holds no double quote.
proof fn lemma_read_quote_is_writable(s: Seq<u8>, i: int)
    requires
        valid_utf8(s),
        0 <= i <= s.len(),
    ensures
        parsed_quote(s, i) matches Ok((text, _)) ==> writable(ExprView::Quote(text)),
{
    if let Ok((text, k)) = parsed_quote(s, i) {
        lemma_quote_in_text(s, i);
        lemma_run_end(s, i + 1, ByteClass::Quoted);
        let body = s.subrange(i + 1, k - 1);
        decode_utf8_encode_utf8(body);
        assert forall|n: int| 0 <= n < body.len() implies body[n] != QUOTE by {
            assert(ByteClass::Quoted.holds(s[i + 1 + n]));
        }
    }
}

/// A name that was read is a name.
proof fn lemma_read_name_is_name(s: Seq<u8>, i: int)
    requires
        0 <= i <= s.len(),
    ensures
        parsed_name(s, i) matches Ok((name, _)) ==> is_name(name),
{
    if let Ok((name, j)) = parsed_name(s, i) {
        lemma_run_end(s, i, ByteClass::Letter);
        assert forall|k: int| 0 <= k < name.len() implies 'a' <= #[trigger] name[k] <= 'z' by {
            assert(ByteClass::Letter.holds(s[i + k]));
            assert(name[k] == s.subrange(i, j)[k] as char);
        }
    }
}

/// In UTF-8, an expression that was read can be written out.
pub proof fn lemma_read_expr_is_writable(s: Seq<u8>, i: int)
    requires
        valid_utf8(s),
        0 <= i <= s.len(),
        is_char_boundary(s, i),
    ensures
        parsed_expr(s, i) matches Ok((expr, _)) ==> writable(expr),
    decreases s.len() - i, 3int,
{
    lemma_run_end(s, i, ByteClass::Blank);
    lemma_run_on_boundary(s, i, ByteClass::Blank);
    let j = run_end(s, i, ByteClass::Blank);
    if j < s.len() && s[j] == QUOTE {
        lemma_read_quote_is_writable(s, j);
    } else {
        lemma_read_call_is_writable(s, j);
    }
}

/// In UTF-8, a call that was read can be written out.
pub proof fn lemma_read_call_is_writable(s: Seq<u8>, i: int)
    requires
        valid_utf8(s),
        0 <= i <= s.len(),
        is_char_boundary(s, i),
    ensures
        parsed_call(s, i) matches Ok((call, _)) ==> writable_call(call),
    decreases s.len() - i, 2int,
{
    lemma_run_end(s, i, ByteClass::Letter);
    lemma_run_on_boundary(s, i, ByteClass::Letter);
    lemma_read_name_is_name(s, i);
    if let Ok((_, j)) = parsed_name(s, i) {
        lemma_read_args_are_writable(s, j);
    }
}

/// In UTF-8, the arguments that were read can be written out.
proof fn lemma_read_args_are_writable(s: Seq<u8>, i: int)
    requires
        valid_utf8(s),
        0 <= i <= s.len(),
        is_char_boundary(s, i),
    ensures
        parsed_args(s, i) matches Ok((args, _)) ==> writable_list(args),
    decreases s.len() - i, 1int,
{
    lemma_run_end(s, i, ByteClass::Blank);
    lemma_run_on_boundary(s, i, ByteClass::Blank);
    let j = run_end(s, i, ByteClass::Blank);
    if j < s.len() && s[j] == OPEN {
        lemma_boundary_behind_ascii(s, j);
        lemma_run_end(s, j + 1, ByteClass::Blank);
        lemma_run_on_boundary(s, j + 1, ByteClass::Blank);
        let k = run_end(s, j + 1, ByteClass::Blank);
        if !(k < s.len() && s[k] == CLOSE) {
            lemma_read_items_are_writable(s, k, Seq::empty());
        }
    }
}

/// In UTF-8, the arguments that were read behind writable ones can be written out.
proof fn lemma_read_items_are_writable(s: Seq<u8>, i: int, front: Seq<ExprView>)
    requires
        valid_utf8(s),
        0 <= i <= s.len(),
        is_char_boundary(s, i),
        writable_list(front),
    ensures
        parsed_items(s, i, front) matches Ok((args, _)) ==> writable_list(args),
    decreases s.len() - i, 4int,
{
    lemma_parsed_expr_bounds(s, i);
    lemma_parsed_expr_on_boundary(s, i);
    lemma_read_expr_is_writable(s, i);
    if let Ok((item, j)) = parsed_expr(s, i) {
        lemma_writable_push(front, item);
        if j < s.len() && s[j] == COMMA {
            lemma_boundary_behind_ascii(s, j);
            lemma_run_end(s, j + 1, ByteClass::Blank);
            lemma_run_on_boundary(s, j + 1, ByteClass::Blank);
            lemma_read_items_are_writable(
                s,
                run_end(s, j + 1, ByteClass::Blank),
                front.push(item),
            );
        }
    }
}

/// What is read from a rule is in normal form: the call can be written out,
/// and written out it reads as the same call.
pub proof fn lemma_read_rule_is_normal(rule: Seq<char>)
    ensures
        parsed_rule(encode_utf8(rule)) matches Ok(call) ==> writable_call(call) && parsed_rule(
            rendered_call(call),
        ) == Ok::<CallView, GrammarErrorView>(call),
{
    let s = encode_utf8(rule);
    encode_utf8_valid_utf8(rule);
    is_char_boundary_start_end_of_seq(s);
    lemma_read_call_is_writable(s, 0);
    if let Ok(call) = parsed_rule(s) {
        lemma_written_rule_reads_back(call);
    }
}

} // verus!
