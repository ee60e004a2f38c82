//! Prompt templates: text with placeholders `{{#name#}}` for variables.

use crate::json::Json;
use crate::json::Tree;
use crate::pool::Pool;
use crate::text::chars_of;
use vstd::prelude::*;

verus! {

/// The text that a variable's value is shown as: a text as it stands, a number or a truth value
/// as it is written. Other values have none.
pub open spec fn shown(t: Tree) -> Option<Seq<char>> {
    match t {
        Tree::Text(s) => Some(s),
        Tree::Number(_, text) => Some(text),
        Tree::Bool(b) => Some(
            if b {
                "true"@
            } else {
                "false"@
            },
        ),
        _ => None,
    }
}

/// The text of a variable; `None` where it is unset or has none.
pub open spec fn resolve(pool: Map<Seq<char>, Tree>, name: Seq<char>) -> Option<Seq<char>> {
    if pool.dom().contains(name) {
        shown(pool[name])
    } else {
        None
    }
}

/// `{{#` stands at `i`.
pub open spec fn opens_at(t: Seq<char>, i: int) -> bool {
    0 <= i && i + 3 <= t.len() && t[i] == '{' && t[i + 1] == '{' && t[i + 2] == '#'
}

/// `#}}` stands at `i`.
pub open spec fn closes_at(t: Seq<char>, i: int) -> bool {
    0 <= i && i + 3 <= t.len() && t[i] == '#' && t[i + 1] == '}' && t[i + 2] == '}'
}

/// The first place from `i` on where `#}}` stands.
pub open spec fn close_from(t: Seq<char>, i: int) -> Option<int>
    decreases t.len() - i,
{
    if i >= t.len() {
        None
    } else if closes_at(t, i) {
        Some(i)
    } else {
        close_from(t, i + 1)
    }
}

/// A text in front of a rendered rest.
pub open spec fn before(head: Seq<char>, rest: Result<Seq<char>, Seq<char>>) -> Result<
    Seq<char>,
    Seq<char>,
> {
    match rest {
        Ok(tail) => Ok(head + tail),
        Err(name) => Err(name),
    }
}

/// The template `t` from `i` on, each placeholder replaced by its variable's text, or the first
/// variable that has none.
pub open spec fn rendered_from(t: Seq<char>, pool: Map<Seq<char>, Tree>, i: int) -> Result<
    Seq<char>,
    Seq<char>,
>
    decreases t.len() - i,
{
    if i >= t.len() {
        Ok(Seq::empty())
    } else {
        let close = close_from(t, i + 3);
        if opens_at(t, i) && close is Some && i + 3 <= close->0 <= t.len() - 3 {
            let name = t.subrange(i + 3, close->0);
            match resolve(pool, name) {
                Some(text) => before(text, rendered_from(t, pool, close->0 + 3)),
                None => Err(name),
            }
        } else {
            before(seq![t[i]], rendered_from(t, pool, i + 1))
        }
    }
}

/// The template with each placeholder replaced, or the first variable that has no text.
pub open spec fn rendered(t: Seq<char>, pool: Map<Seq<char>, Tree>) -> Result<
    Seq<char>,
    Seq<char>,
> {
    rendered_from(t, pool, 0)
}

fn resolve_text(pool: &Pool, name: &str) -> (r: Option<String>)
    ensures
        match r {
            Some(s) => resolve(pool@, name@) == Some(s@),
            None => resolve(pool@, name@) is None,
        },
{
    match pool.get(name) {
        Some(Json::Text(s)) => Some(s.clone()),
        Some(Json::Number(_, text)) => Some(text.clone()),
        Some(Json::Bool(b)) => if *b {
            Some("true".to_owned())
        } else {
            Some("false".to_owned())
        },
        _ => None,
    }
}

fn find_close(t: &Vec<char>, start: usize) -> (r: Option<usize>)
    ensures
        match r {
            Some(e) => close_from(t@, start as int) == Some(e as int) && start <= e && e + 3
                <= t@.len(),
            None => close_from(t@, start as int) is None,
        },
{
    let mut i: usize = start;
    while i < t.len()
        invariant
            start <= i,
            close_from(t@, start as int) == close_from(t@, i as int),
        decreases t.len() - i,
    {
        if t.len() - i >= 3 && t[i] == '#' && t[i + 1] == '}' && t[i + 2] == '}' {
            return Some(i);
        }
        i = i + 1;
    }
    None
}

fn slice_text(t: &Vec<char>, from: usize, to: usize) -> (s: String)
    requires
        from <= to <= t@.len(),
    ensures
        s@ == t@.subrange(from as int, to as int),
{
    let mut s = String::new();
    for i in from..to
        invariant
            from <= to <= t@.len(),
            s@ == t@.subrange(from as int, i as int),
    {
        s.push(t[i]);
        assert(t@.subrange(from as int, i + 1) =~= t@.subrange(from as int, i as int).push(
            t@[i as int],
        ));
    }
    s
}

/// Replaces each placeholder by its variable's text; the error is the first variable that is
/// unset, or has no text.
pub fn render(template: &str, pool: &Pool) -> (r: Result<String, String>)
    ensures
        match r {
            Ok(s) => rendered(template@, pool@) == Ok::<Seq<char>, Seq<char>>(s@),
            Err(name) => rendered(template@, pool@) == Err::<Seq<char>, Seq<char>>(name@),
        },
{
    let t = chars_of(template);
    let mut out = String::new();
    let mut i: usize = 0;
    proof {
        if let Ok(tail) = rendered(t@, pool@) {
            assert(out@ + tail =~= tail);
        }
    }
    while i < t.len()
        invariant
            i <= t@.len(),
            t@ == template@,
            rendered(t@, pool@) == before(out@, rendered_from(t@, pool@, i as int)),
        decreases t.len() - i,
    {
        let ghost done = out@;
        if t.len() - i >= 3 && t[i] == '{' && t[i + 1] == '{' && t[i + 2] == '#' {
            if let Some(e) = find_close(&t, i + 3) {
                let name = slice_text(&t, i + 3, e);
                match resolve_text(pool, &name) {
                    Some(text) => {
                        out.append(text.as_str());
                        i = e + 3;
                        proof {
                            if let Ok(tail) = rendered_from(t@, pool@, i as int) {
                                assert(done + (text@ + tail) =~= done + text@ + tail);
                            }
                        }
                        continue;
                    },
                    None => {
                        return Err(name);
                    },
                }
            }
        }
        out.push(t[i]);
        i = i + 1;
        proof {
            if let Ok(tail) = rendered_from(t@, pool@, i as int) {
                assert(done + (seq![t@[i - 1]] + tail) =~= done.push(t@[i - 1]) + tail);
            }
        }
    }
    proof {
        assert(out@ + Seq::<char>::empty() =~= out@);
    }
    Ok(out)
}

} // verus!
