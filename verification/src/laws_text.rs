//! What numerals, names, failure blocks, prompts and call logs hold.

use crate::attempts::with_block;
use crate::failure::FailureView;
use crate::failure::NodeFailureKind;
use crate::failure::failure_block;
use crate::json::Tree;
use crate::pool::variable;
use crate::sessions::lines_from;
use crate::sessions::newline_from;
use crate::sessions::stripped;
use crate::sessions::without_return;
use crate::template::before;
use crate::template::close_from;
use crate::template::closes_at;
use crate::template::opens_at;
use crate::template::rendered;
use crate::template::rendered_from;
use crate::text::decimal;
use vstd::prelude::*;

verus! {

// ---------------------------------------------------------------------------------------------
// Numerals and names
// ---------------------------------------------------------------------------------------------

/// The number that a row of digits spells out, to the base ten.
pub open spec fn spelled(digits: Seq<char>) -> int
    decreases digits.len(),
{
    if digits.len() == 0 {
        0
    } else {
        10 * spelled(digits.drop_last()) + (digits.last() as int - '0' as int)
    }
}

/// A numeral spells out its number, in digits alone and without leading zeros.
pub proof fn law_a_numeral_spells_its_number(n: nat)
    ensures
        spelled(decimal(n)) == n,
        decimal(n).len() > 0,
        decimal(n).len() > 1 ==> decimal(n)[0] != '0',
        forall|i: int|
            0 <= i < decimal(n).len() ==> '0' as int <= (#[trigger] decimal(n)[i]) as int <= '9' as int,
    decreases n,
{
    reveal_with_fuel(spelled, 2);
    if n < 10 {
        assert(decimal(n).drop_last() =~= Seq::empty());
    } else {
        law_a_numeral_spells_its_number(n / 10);
        assert(decimal(n).drop_last() =~= decimal(n / 10));
        assert(decimal(n)[0] == decimal(n / 10)[0]);
        if n < 100 {
            assert(decimal(n / 10) =~= seq![crate::text::digit(n / 10)]);
        }
    }
}

/// Two numbers have one numeral only where they are one.
pub proof fn law_numerals_differ(m: nat, n: nat)
    requires
        decimal(m) == decimal(n),
    ensures
        m == n,
{
    law_a_numeral_spells_its_number(m);
    law_a_numeral_spells_its_number(n);
}

/// A variable's name is its node's id, a dot, and its name in the node.
pub proof fn law_a_variable_is_named_after_its_node(id: Seq<char>, name: Seq<char>)
    ensures
        variable(id, name) == id.push('.') + name,
{
    reveal_strlit(".");
    assert(variable(id, name) =~= id.push('.') + name);
}

/// The kinds of failures go by four names in records.
pub proof fn law_kinds_are_recorded_by_name(kind: NodeFailureKind)
    ensures
        kind.spec_name() == "session"@ <==> kind is Session,
        kind.spec_name() == "structured_output"@ <==> kind is StructuredOutput,
        kind.spec_name() == "variables"@ <==> kind is Variables,
        kind.spec_name() == "interrupted"@ <==> kind is Interrupted,
{
    reveal_strlit("session");
    reveal_strlit("structured_output");
    reveal_strlit("variables");
    reveal_strlit("interrupted");
    assert("session"@.len() == 7);
    assert("structured_output"@.len() == 17);
    assert("variables"@.len() == 9);
    assert("interrupted"@.len() == 11);
}

// ---------------------------------------------------------------------------------------------
// What an attempt is told
// ---------------------------------------------------------------------------------------------

/// A block names the failed attempt, then says its failure's whole message, and ends with the
/// reply, where there was one. What stands before the message depends on the attempt alone.
pub proof fn law_a_block_says_what_went_wrong(attempt: u64, f: FailureView)
    ensures
        ({
            let block = failure_block(attempt, f);
            let number = decimal(attempt as nat);
            let close = 18 + number.len() as int;
            let from = close + 10;
            let to = from + f.message.len() as int;
            &&& to <= block.len()
            &&& block.subrange(0, 18) == "Previous attempt ("@
            &&& block.subrange(18, close) == number
            &&& block.subrange(close, from) == ") failed: "@
            &&& block.subrange(from, to) == f.message
            &&& match f.output {
                Some(output) => {
                    &&& block.len() == to + 14 + output.len()
                    &&& block.subrange(to, to + 14) == "\nIt answered:\n"@
                    &&& block.subrange(to + 14, block.len() as int) == output
                },
                None => block.len() == to,
            }
        }),
{
    reveal_strlit("Previous attempt (");
    reveal_strlit(") failed: ");
    reveal_strlit("\nIt answered:\n");
    let block = failure_block(attempt, f);
    let number = decimal(attempt as nat);
    let close = 18 + number.len() as int;
    let from = close + 10;
    let to = from + f.message.len() as int;
    assert("Previous attempt ("@.len() == 18);
    assert(") failed: "@.len() == 10);
    assert("\nIt answered:\n"@.len() == 14);
    assert(block.subrange(0, 18) =~= "Previous attempt ("@);
    assert(block.subrange(18, close) =~= number);
    assert(block.subrange(close, from) =~= ") failed: "@);
    assert(block.subrange(from, to) =~= f.message);
    if let Some(output) = f.output {
        assert(block.subrange(to, to + 14) =~= "\nIt answered:\n"@);
        assert(block.subrange(to + 14, block.len() as int) =~= output);
    }
}

/// A prompt stands whole in front of what the attempt is told, a blank line between them.
pub proof fn law_the_block_stands_behind_the_prompt(base: Seq<char>, block: Option<Seq<char>>)
    ensures
        ({
            let prompt = with_block(base, block);
            match block {
                Some(b) => {
                    &&& prompt.len() == base.len() + 2 + b.len()
                    &&& prompt.subrange(0, base.len() as int) == base
                    &&& prompt[base.len() as int] == '\n'
                    &&& prompt[base.len() as int + 1] == '\n'
                    &&& prompt.subrange(base.len() as int + 2, prompt.len() as int) == b
                },
                None => prompt == base,
            }
        }),
{
    reveal_strlit("\n\n");
    let prompt = with_block(base, block);
    if let Some(b) = block {
        assert(prompt.subrange(0, base.len() as int) =~= base);
        assert(prompt.subrange(base.len() as int + 2, prompt.len() as int) =~= b);
    }
}

// ---------------------------------------------------------------------------------------------
// Templates
// ---------------------------------------------------------------------------------------------

/// `{{#` stands at `i`.
pub open spec fn mark_opens(t: Seq<char>, i: int) -> bool {
    0 <= i && i + 2 < t.len() && t[i] == '{' && t[i + 1] == '{' && t[i + 2] == '#'
}

/// `#}}` stands at `i`.
pub open spec fn mark_closes(t: Seq<char>, i: int) -> bool {
    0 <= i && i + 2 < t.len() && t[i] == '#' && t[i + 1] == '}' && t[i + 2] == '}'
}

proof fn lemma_close_none(t: Seq<char>, i: int)
    requires
        0 <= i,
        forall|j: int| i <= j ==> !mark_closes(t, j),
    ensures
        close_from(t, i) is None,
    decreases t.len() - i,
{
    if i < t.len() {
        assert(!mark_closes(t, i));
        lemma_close_none(t, i + 1);
    }
}

proof fn lemma_close_first(t: Seq<char>, i: int, e: int)
    requires
        0 <= i <= e,
        mark_closes(t, e),
        forall|j: int| i <= j < e ==> !mark_closes(t, j),
    ensures
        close_from(t, i) == Some(e),
    decreases e - i,
{
    if i < e {
        assert(!mark_closes(t, i));
        lemma_close_first(t, i + 1, e);
    }
}

/// Copies `t` from `i` up to `e`, where no placeholder begins in between.
proof fn lemma_copied(t: Seq<char>, pool: Map<Seq<char>, Tree>, i: int, e: int)
    requires
        0 <= i <= e <= t.len(),
        forall|j: int|
            i <= j < e && mark_opens(t, j) ==> forall|k: int| j + 3 <= k ==> !mark_closes(t, k),
    ensures
        rendered_from(t, pool, i) == before(t.subrange(i, e), rendered_from(t, pool, e)),
    decreases e - i,
{
    if i < e {
        lemma_copied(t, pool, i + 1, e);
        if opens_at(t, i) {
            assert(mark_opens(t, i));
            lemma_close_none(t, i + 3);
        }
        assert(rendered_from(t, pool, i) == before(seq![t[i]], rendered_from(t, pool, i + 1)));
        if let Ok(tail) = rendered_from(t, pool, e) {
            assert(seq![t[i]] + (t.subrange(i + 1, e) + tail) =~= t.subrange(i, e) + tail);
        }
    } else if let Ok(tail) = rendered_from(t, pool, e) {
        assert(t.subrange(i, e) + tail =~= tail);
    }
}

proof fn lemma_close_shifted(head: Seq<char>, tail: Seq<char>, i: int)
    requires
        0 <= i,
    ensures
        close_from(head + tail, head.len() + i) == match close_from(tail, i) {
            Some(e) => Some(head.len() + e),
            None => None,
        },
        close_from(tail, i) matches Some(e) ==> i <= e,
    decreases tail.len() - i,
{
    if i < tail.len() {
        let t = head + tail;
        assert(closes_at(t, head.len() + i) == closes_at(tail, i));
        if !closes_at(tail, i) {
            lemma_close_shifted(head, tail, i + 1);
        }
    }
}

proof fn lemma_rendered_shifted(
    head: Seq<char>,
    tail: Seq<char>,
    pool: Map<Seq<char>, Tree>,
    i: int,
)
    requires
        0 <= i,
    ensures
        rendered_from(head + tail, pool, head.len() + i) == rendered_from(tail, pool, i),
    decreases tail.len() - i,
{
    if i < tail.len() {
        let t = head + tail;
        let n = head.len() as int;
        lemma_close_shifted(head, tail, i + 3);
        assert(opens_at(t, n + i) == opens_at(tail, i));
        let close = close_from(tail, i + 3);
        if opens_at(tail, i) && close is Some && i + 3 <= close->0 <= tail.len() - 3 {
            let e = close->0;
            assert(t.subrange(n + i + 3, n + e) =~= tail.subrange(i + 3, e));
            lemma_rendered_shifted(head, tail, pool, e + 3);
        } else {
            lemma_rendered_shifted(head, tail, pool, i + 1);
            assert(t[n + i] == tail[i]);
        }
    }
}

/// A text that holds no whole placeholder is rendered as it stands.
pub proof fn law_text_without_placeholders_stays(t: Seq<char>, pool: Map<Seq<char>, Tree>)
    requires
        forall|i: int, j: int| mark_opens(t, i) && i + 3 <= j ==> !mark_closes(t, j),
    ensures
        rendered(t, pool) == Ok::<Seq<char>, Seq<char>>(t),
{
    lemma_copied(t, pool, 0, t.len() as int);
    assert(t.subrange(0, t.len() as int) + Seq::<char>::empty() =~= t);
}

/// The first placeholder of a template is replaced by its variable's value: a text as it stands, a
/// number as it is written, a truth value by its name. What stands before it is copied, and what
/// stands behind it is rendered in turn. Where the variable is unset, or has a value of another
/// sort, it is the error.
pub proof fn law_a_placeholder_is_replaced(
    head: Seq<char>,
    name: Seq<char>,
    tail: Seq<char>,
    pool: Map<Seq<char>, Tree>,
)
    requires
        ({
            let t = head + seq!['{', '{', '#'] + name + seq!['#', '}', '}'] + tail;
            &&& forall|i: int| 0 <= i < head.len() ==> !mark_opens(t, i)
            &&& forall|j: int|
                head.len() + 3 <= j < head.len() + 3 + name.len() ==> !mark_closes(t, j)
        }),
    ensures
        ({
            let t = head + seq!['{', '{', '#'] + name + seq!['#', '}', '}'] + tail;
            let r = rendered(t, pool);
            let rest = rendered(tail, pool);
            let fits = |text: Seq<char>|
                match rest {
                    Ok(end) => r == Ok::<Seq<char>, Seq<char>>(head + text + end),
                    Err(missing) => r == Err::<Seq<char>, Seq<char>>(missing),
                };
            if !pool.dom().contains(name) {
                r == Err::<Seq<char>, Seq<char>>(name)
            } else {
                match pool[name] {
                    Tree::Text(text) => fits(text),
                    Tree::Number(_, text) => fits(text),
                    Tree::Bool(true) => fits("true"@),
                    Tree::Bool(false) => fits("false"@),
                    _ => r == Err::<Seq<char>, Seq<char>>(name),
                }
            }
        }),
{
    let front = head + seq!['{', '{', '#'] + name + seq!['#', '}', '}'];
    let t = front + tail;
    let h = head.len() as int;
    let e = h + 3 + name.len();
    assert(mark_opens(t, h));
    assert(mark_closes(t, e));
    lemma_copied(t, pool, 0, h);
    assert(t.subrange(0, h) =~= head);
    lemma_close_first(t, h + 3, e);
    assert(t.subrange(h + 3, e) =~= name);
    lemma_rendered_shifted(front, tail, pool, 0);
    assert(front.len() == e + 3);
    assert(rendered_from(t, pool, e + 3) == rendered(tail, pool));
    if pool.dom().contains(name) {
        if let Ok(end) = rendered(tail, pool) {
            if let Some(text) = crate::template::resolve(pool, name) {
                assert(head + (text + end) =~= head + text + end);
            }
        }
    }
}

// ---------------------------------------------------------------------------------------------
// Call logs
// ---------------------------------------------------------------------------------------------

/// What the lines of a log that begin with `p` hold behind it.
pub open spec fn read_off(log: Seq<char>, p: Seq<char>) -> Seq<Seq<char>> {
    stripped(lines_from(log, 0), p)
}

/// What a line holds behind `p`, if `p` stands in front of it.
pub open spec fn behind_mark(line: Seq<char>, p: Seq<char>) -> Seq<Seq<char>> {
    if line.len() >= p.len() && (forall|k: int| 0 <= k < p.len() ==> line[k] == p[k]) {
        seq![line.subrange(p.len() as int, line.len() as int)]
    } else {
        Seq::empty()
    }
}

proof fn lemma_newline_shifted(head: Seq<char>, tail: Seq<char>, i: int)
    requires
        0 <= i,
    ensures
        newline_from(head + tail, head.len() + i) == match newline_from(tail, i) {
            Some(e) => Some(head.len() + e),
            None => None,
        },
        newline_from(tail, i) matches Some(e) ==> i <= e < tail.len(),
    decreases tail.len() - i,
{
    if i < tail.len() && tail[i] != '\n' {
        lemma_newline_shifted(head, tail, i + 1);
    }
}

proof fn lemma_lines_shifted(head: Seq<char>, tail: Seq<char>, i: int)
    requires
        0 <= i,
    ensures
        lines_from(head + tail, head.len() + i) == lines_from(tail, i),
    decreases tail.len() - i,
{
    if i < tail.len() {
        let t = head + tail;
        let n = head.len() as int;
        lemma_newline_shifted(head, tail, i);
        match newline_from(tail, i) {
            Some(e) => {
                lemma_lines_shifted(head, tail, e + 1);
                assert(t.subrange(n + i, n + e) =~= tail.subrange(i, e));
            },
            None => {
                assert(t.subrange(n + i, t.len() as int) =~= tail.subrange(i, tail.len() as int));
            },
        }
    }
}

proof fn lemma_newline_at(t: Seq<char>, i: int, e: int)
    requires
        0 <= i <= e <= t.len(),
        e < t.len() ==> t[e] == '\n',
        forall|k: int| i <= k < e ==> t[k] != '\n',
    ensures
        newline_from(t, i) == if e < t.len() {
            Some(e)
        } else {
            None
        },
    decreases e - i,
{
    if i < e {
        lemma_newline_at(t, i + 1, e);
    }
}

proof fn lemma_stripped_one(line: Seq<char>, rest: Seq<Seq<char>>, p: Seq<char>)
    ensures
        stripped(seq![line] + rest, p) == behind_mark(line, p) + stripped(rest, p),
{
    let lines = seq![line] + rest;
    assert(lines.drop_first() =~= rest);
    if line.len() >= p.len() {
        if forall|k: int| 0 <= k < p.len() ==> line[k] == p[k] {
            assert(line.subrange(0, p.len() as int) =~= p);
        } else {
            let k = choose|k: int| 0 <= k < p.len() && line[k] != p[k];
            assert(line.subrange(0, p.len() as int)[k] != p[k]);
        }
    }
    assert(line.skip(p.len() as int) =~= line.subrange(p.len() as int, line.len() as int)
        || line.len() < p.len());
    assert(Seq::<Seq<char>>::empty() + stripped(rest, p) =~= stripped(rest, p));
}

/// A log is read line by line, in order: what its first line holds behind the mark comes first, if
/// the mark stands in front of that line, and then what the further lines hold. A carriage return
/// in front of the line feed does not belong to the line.
pub proof fn law_a_log_is_read_line_by_line(line: Seq<char>, rest: Seq<char>, p: Seq<char>)
    requires
        forall|k: int| 0 <= k < line.len() ==> line[k] != '\n',
    ensures
        read_off(line.push('\n') + rest, p) == behind_mark(
            if line.len() > 0 && line[line.len() - 1] == '\r' {
                line.subrange(0, line.len() - 1)
            } else {
                line
            },
            p,
        ) + read_off(rest, p),
{
    let head = line.push('\n');
    let log = head + rest;
    let n = line.len() as int;
    lemma_newline_at(log, 0, n);
    assert(log.subrange(0, n) =~= line);
    lemma_lines_shifted(head, rest, 0);
    let first = without_return(line);
    assert(line.len() > 0 ==> line.drop_last() =~= line.subrange(0, line.len() - 1));
    assert(lines_from(log, 0) == seq![first] + lines_from(rest, 0));
    lemma_stripped_one(first, lines_from(rest, 0), p);
}

/// A last line without a line feed is read as it stands; a log without lines holds nothing.
pub proof fn law_a_logs_last_line_is_read(line: Seq<char>, p: Seq<char>)
    requires
        forall|k: int| 0 <= k < line.len() ==> line[k] != '\n',
    ensures
        line.len() > 0 ==> read_off(line, p) == behind_mark(line, p),
        line.len() == 0 ==> read_off(line, p).len() == 0,
{
    if line.len() > 0 {
        lemma_newline_at(line, 0, line.len() as int);
        assert(line.subrange(0, line.len() as int) =~= line);
        assert(seq![line] + Seq::<Seq<char>>::empty() =~= seq![line]);
        lemma_stripped_one(line, Seq::empty(), p);
        assert(behind_mark(line, p) + Seq::<Seq<char>>::empty() =~= behind_mark(line, p));
    }
}

} // verus!
