//! The log of an agent's calls.

use crate::text::chars_of;
use vstd::prelude::*;

verus! {

/// The first line feed from `i` on.
pub open spec fn newline_from(t: Seq<char>, i: int) -> Option<int>
    decreases t.len() - i,
{
    if i >= t.len() {
        None
    } else if t[i] == '\n' {
        Some(i)
    } else {
        newline_from(t, i + 1)
    }
}

/// A line that ended in a line feed, without a carriage return before it.
pub open spec fn without_return(line: Seq<char>) -> Seq<char> {
    if line.len() > 0 && line.last() == '\r' {
        line.drop_last()
    } else {
        line
    }
}

/// The lines of a text from `i` on. A line feed at the end begins no further line.
pub open spec fn lines_from(t: Seq<char>, i: int) -> Seq<Seq<char>>
    decreases t.len() - i,
{
    if i >= t.len() {
        Seq::empty()
    } else {
        match newline_from(t, i) {
            Some(e) => if i <= e < t.len() {
                seq![without_return(t.subrange(i, e))] + lines_from(t, e + 1)
            } else {
                Seq::empty()
            },
            None => seq![t.subrange(i, t.len() as int)],
        }
    }
}

/// The text `p` stands at the front of a line.
pub open spec fn begins_with(line: Seq<char>, p: Seq<char>) -> bool {
    line.len() >= p.len() && line.subrange(0, p.len() as int) == p
}

/// What stands behind `p` in the lines that begin with it, line by line.
pub open spec fn stripped(lines: Seq<Seq<char>>, p: Seq<char>) -> Seq<Seq<char>>
    decreases lines.len(),
{
    if lines.len() == 0 {
        Seq::empty()
    } else if begins_with(lines[0], p) {
        seq![lines[0].skip(p.len() as int)] + stripped(lines.drop_first(), p)
    } else {
        stripped(lines.drop_first(), p)
    }
}

/// The views of a sequence of texts.
pub open spec fn texts(v: Seq<String>) -> Seq<Seq<char>> {
    Seq::new(v.len(), |i: int| v[i]@)
}

fn find_newline(t: &Vec<char>, start: usize) -> (r: Option<usize>)
    ensures
        match r {
            Some(e) => newline_from(t@, start as int) == Some(e as int) && start <= e < t@.len(),
            None => newline_from(t@, start as int) is None,
        },
{
    let mut i: usize = start;
    while i < t.len()
        invariant
            start <= i,
            newline_from(t@, start as int) == newline_from(t@, i as int),
        decreases t.len() - i,
    {
        if t[i] == '\n' {
            return Some(i);
        }
        i = i + 1;
    }
    None
}

/// What stands behind `p` between `from` and `to`, if `p` stands in front there.
fn behind(t: &Vec<char>, from: usize, to: usize, p: &Vec<char>) -> (r: Option<String>)
    requires
        from <= to <= t@.len(),
    ensures
        ({
            let line = t@.subrange(from as int, to as int);
            match r {
                Some(s) => begins_with(line, p@) && s@ == line.skip(p@.len() as int),
                None => !begins_with(line, p@),
            }
        }),
{
    let ghost line = t@.subrange(from as int, to as int);
    if to - from < p.len() {
        return None;
    }
    for k in 0..p.len()
        invariant
            from <= to <= t@.len(),
            to - from >= p@.len(),
            line == t@.subrange(from as int, to as int),
            forall|j: int| 0 <= j < k ==> line[j] == p@[j],
    {
        if t[from + k] != p[k] {
            assert(line.subrange(0, p@.len() as int)[k as int] != p@[k as int]);
            return None;
        }
    }
    assert(line.subrange(0, p@.len() as int) =~= p@);
    let mut s = String::new();
    let first: usize = from + p.len();
    for i in first..to
        invariant
            from <= first <= to <= t@.len(),
            first == from + p@.len(),
            s@ == t@.subrange(first as int, i as int),
    {
        s.push(t[i]);
        assert(t@.subrange(first as int, i + 1) =~= t@.subrange(first as int, i as int).push(
            t@[i as int],
        ));
    }
    assert(s@ =~= line.skip(p@.len() as int));
    Some(s)
}

/// The sessions that a log of calls has a prompt for, in order: what stands behind
/// `session/prompt ` in the lines that begin with it.
pub fn prompted_sessions(log: &str) -> (sessions: Vec<String>)
    ensures
        texts(sessions@) == stripped(lines_from(log@, 0), "session/prompt "@),
{
    let t = chars_of(log);
    let p = chars_of("session/prompt ");
    let mut sessions: Vec<String> = Vec::new();
    let mut i: usize = 0;
    assert(texts(sessions@) + stripped(lines_from(t@, 0), p@) =~= stripped(
        lines_from(t@, 0),
        p@,
    ));
    while i < t.len()
        invariant
            t@ == log@,
            p@ == "session/prompt "@,
            i <= t@.len(),
            stripped(lines_from(t@, 0), p@) == texts(sessions@) + stripped(
                lines_from(t@, i as int),
                p@,
            ),
        decreases t.len() - i,
    {
        let ghost before = sessions@;
        let ghost lines = lines_from(t@, i as int);
        let ghost from = i as int;
        let mut end: usize = t.len();
        let mut next: usize = t.len();
        match find_newline(&t, i) {
            Some(e) => {
                next = e + 1;
                end = e;
                if i < e && t[e - 1] == '\r' {
                    end = e - 1;
                    assert(t@.subrange(from, e as int).drop_last() =~= t@.subrange(
                        from,
                        end as int,
                    ));
                }
                proof {
                    assert(t@.subrange(from, e as int).len() == e - from);
                    if from < e {
                        assert(t@.subrange(from, e as int).last() == t@[e - 1]);
                    }
                    assert(without_return(t@.subrange(from, e as int)) == t@.subrange(
                        from,
                        end as int,
                    ));
                    assert(lines.drop_first() =~= lines_from(t@, next as int));
                }
            },
            None => {
                proof {
                    assert(lines.drop_first() =~= lines_from(t@, next as int));
                }
            },
        }
        assert(lines[0] == t@.subrange(from, end as int));
        assert(lines.drop_first() == lines_from(t@, next as int));
        match behind(&t, i, end, &p) {
            Some(s) => {
                sessions.push(s);
                proof {
                    let rest = stripped(lines_from(t@, next as int), p@);
                    assert(texts(sessions@) =~= texts(before).push(s@));
                    assert(texts(before) + (seq![s@] + rest) =~= texts(before).push(s@) + rest);
                }
            },
            None => {},
        }
        i = next;
    }
    proof {
        assert(lines_from(t@, i as int) =~= Seq::empty());
        assert(texts(sessions@) + Seq::<Seq<char>>::empty() =~= texts(sessions@));
    }
    sessions
}

} // verus!
