//! Turning a raw command string into argument vectors.
//!
//! A command is split on the literal `&&` into sub-commands, each sub-command
//! is split on whitespace into tokens, and each token goes through shell-style
//! expansion of `$VAR`, `${VAR}` and a leading `~`.

use vstd::prelude::*;

verus! {

/// The characters that `char::is_whitespace` accepts: those with the Unicode
/// `White_Space` property.
pub open spec fn is_space(c: char) -> bool {
    let n = c as u32;
    (0x9 <= n && n <= 0xd) || n == 0x20 || n == 0x85 || n == 0xa0 || n == 0x1680 || (0x2000
        <= n && n <= 0x200a) || n == 0x2028 || n == 0x2029 || n == 0x202f || n == 0x205f || n
        == 0x3000
}

/// The pieces of `s` between occurrences of `&&`, matched from the left
/// without overlap, as `str::split("&&")` yields them. There is always at
/// least one piece.
pub open spec fn segments(s: Seq<char>) -> Seq<Seq<char>>
    decreases s.len(),
{
    if s.len() == 0 {
        seq![Seq::<char>::empty()]
    } else {
        let prev = segments(s.drop_last());
        let cur = prev.last();
        if s.last() == '&' && cur.len() > 0 && cur.last() == '&' {
            prev.update(prev.len() - 1, cur.drop_last()).push(Seq::<char>::empty())
        } else {
            prev.update(prev.len() - 1, cur.push(s.last()))
        }
    }
}

/// The maximal runs of non-whitespace characters of `s`, in order, as
/// `str::split_whitespace` yields them.
pub open spec fn words(s: Seq<char>) -> Seq<Seq<char>>
    decreases s.len(),
{
    if s.len() == 0 {
        Seq::empty()
    } else {
        let p = s.drop_last();
        let c = s.last();
        if is_space(c) {
            words(p)
        } else if p.len() > 0 && !is_space(p.last()) {
            let w = words(p);
            w.update(w.len() - 1, w.last().push(c))
        } else {
            words(p).push(seq![c])
        }
    }
}

/// The tokens of every sub-command of `s`, before expansion.
pub open spec fn command_words_of(s: Seq<char>) -> Seq<Seq<Seq<char>>> {
    segments(s).map_values(|seg: Seq<char>| words(seg))
}

/// A token that expansion leaves as it is: no `$`, and no leading `~`.
pub open spec fn is_literal(t: Seq<char>) -> bool {
    !t.contains('$') && !(t.len() > 0 && t[0] == '~')
}

pub proof fn lemma_segments_nonempty(s: Seq<char>)
    ensures
        segments(s).len() >= 1,
    decreases s.len(),
{
    if s.len() > 0 {
        lemma_segments_nonempty(s.drop_last());
    }
}

pub proof fn lemma_words_nonempty(s: Seq<char>)
    ensures
        forall|i: int| 0 <= i < words(s).len() ==> #[trigger] words(s)[i].len() > 0,
        s.len() > 0 && !is_space(s.last()) ==> words(s).len() > 0,
    decreases s.len(),
{
    if s.len() > 0 {
        let p = s.drop_last();
        lemma_words_nonempty(p);
        if !is_space(s.last()) && p.len() > 0 && !is_space(p.last()) {
            let w = words(p);
            assert forall|i: int| 0 <= i < words(s).len() implies #[trigger] words(s)[i].len()
                > 0 by {
                if i < w.len() - 1 {
                    assert(words(s)[i] == w[i]);
                }
            }
        } else if !is_space(s.last()) {
            let w = words(p);
            assert forall|i: int| 0 <= i < words(s).len() implies #[trigger] words(s)[i].len()
                > 0 by {
                if i < w.len() {
                    assert(words(s)[i] == w[i]);
                }
            }
        }
    }
}

/// Whether `c` is whitespace in the sense of `char::is_whitespace`.
pub fn is_space_char(c: char) -> (r: bool)
    ensures
        r == is_space(c),
{
    let n = c as u32;
    (0x9 <= n && n <= 0xd) || n == 0x20 || n == 0x85 || n == 0xa0 || n == 0x1680 || (0x2000
        <= n && n <= 0x200a) || n == 0x2028 || n == 0x2029 || n == 0x202f || n == 0x205f || n
        == 0x3000
}

/// Splits `s` on `&&` into its sub-commands.
pub fn split_segments(s: &str) -> (r: Vec<String>)
    ensures
        r@.map_values(|x: String| x@) == segments(s@),
{
    let n = s.unicode_len();
    let mut done: Vec<String> = Vec::new();
    let mut start: usize = 0;
    let mut i: usize = 0;
    assert(s@.take(0) =~= Seq::<char>::empty());
    assert(done@.map_values(|x: String| x@) =~= Seq::<Seq<char>>::empty());
    assert(s@.subrange(0, 0) =~= Seq::<char>::empty());
    while i < n
        invariant
            n == s@.len(),
            start <= i <= n,
            segments(s@.take(i as int)) == done@.map_values(|x: String| x@).push(
                s@.subrange(start as int, i as int),
            ),
        decreases n - i,
    {
        let c = s.get_char(i);
        let ghost t = s@.take(i as int + 1);
        let ghost before = done@.map_values(|x: String| x@);
        let ghost cur = s@.subrange(start as int, i as int);
        assert(t.drop_last() =~= s@.take(i as int));
        assert(t.last() == c);
        assert(segments(s@.take(i as int)).last() == cur);
        if c == '&' && i > start && s.get_char(i - 1) == '&' {
            let piece = s.substring_char(start, i - 1);
            done.push(String::from_str(piece));
            assert(cur.drop_last() =~= s@.subrange(start as int, i - 1));
            assert(done@.map_values(|x: String| x@) =~= before.push(cur.drop_last()));
            assert(s@.subrange(i + 1, i + 1) =~= Seq::<char>::empty());
            assert(segments(t) =~= before.push(cur.drop_last()).push(Seq::<char>::empty()));
            start = i + 1;
        } else {
            assert(cur.push(c) =~= s@.subrange(start as int, i + 1));
            assert(segments(t) =~= before.push(cur.push(c)));
        }
        i = i + 1;
    }
    assert(s@.take(n as int) == s@);
    let last = s.substring_char(start, n);
    let ghost before = done@.map_values(|x: String| x@);
    done.push(String::from_str(last));
    assert(done@.map_values(|x: String| x@) == before.push(s@.subrange(start as int, n as int)));
    done
}

/// Splits `s` into its whitespace-separated tokens.
pub fn split_words(s: &str) -> (r: Vec<String>)
    ensures
        r@.map_values(|x: String| x@) == words(s@),
{
    let n = s.unicode_len();
    let mut done: Vec<String> = Vec::new();
    let mut in_word = false;
    let mut start: usize = 0;
    let mut i: usize = 0;
    assert(s@.take(0) =~= Seq::<char>::empty());
    assert(done@.map_values(|x: String| x@) =~= Seq::<Seq<char>>::empty());
    while i < n
        invariant
            n == s@.len(),
            start <= i <= n,
            in_word ==> start < i && !is_space(s@[i - 1]),
            !in_word ==> i == 0 || is_space(s@[i - 1]),
            in_word ==> words(s@.take(i as int)) == done@.map_values(|x: String| x@).push(
                s@.subrange(start as int, i as int),
            ),
            !in_word ==> words(s@.take(i as int)) == done@.map_values(|x: String| x@),
        decreases n - i,
    {
        let c = s.get_char(i);
        let ghost t = s@.take(i as int + 1);
        let ghost before = done@.map_values(|x: String| x@);
        assert(t.drop_last() =~= s@.take(i as int));
        assert(t.last() == c);
        if is_space_char(c) {
            if in_word {
                let piece = s.substring_char(start, i);
                done.push(String::from_str(piece));
                assert(done@.map_values(|x: String| x@) =~= before.push(
                    s@.subrange(start as int, i as int),
                ));
                in_word = false;
            }
        } else if in_word {
            assert(s@.take(i as int).last() == s@[i - 1]);
            assert(s@.subrange(start as int, i as int).push(c) =~= s@.subrange(
                start as int,
                i + 1,
            ));
            assert(words(t) =~= before.push(s@.subrange(start as int, i + 1)));
        } else {
            assert(i > 0 ==> s@.take(i as int).last() == s@[i - 1]);
            assert(s@.subrange(i as int, i + 1) =~= seq![c]);
            start = i;
            in_word = true;
        }
        i = i + 1;
    }
    assert(s@.take(n as int) =~= s@);
    if in_word {
        let piece = s.substring_char(start, n);
        let ghost before = done@.map_values(|x: String| x@);
        done.push(String::from_str(piece));
        assert(done@.map_values(|x: String| x@) =~= before.push(
            s@.subrange(start as int, n as int),
        ));
    }
    done
}

/// The view of a list of argument vectors.
pub open spec fn lines_view(v: Seq<Vec<String>>) -> Seq<Seq<Seq<char>>> {
    v.map_values(|w: Vec<String>| w@.map_values(|x: String| x@))
}

/// Splits a command into sub-commands and each of those into tokens, without
/// expanding anything.
pub fn command_words(cmd: &str) -> (r: Vec<Vec<String>>)
    ensures
        lines_view(r@) == command_words_of(cmd@),
{
    let segs = split_segments(cmd);
    let mut out: Vec<Vec<String>> = Vec::new();
    let mut i: usize = 0;
    while i < segs.len()
        invariant
            i <= segs@.len(),
            segs@.map_values(|x: String| x@) == segments(cmd@),
            lines_view(out@) =~= command_words_of(cmd@).take(i as int),
        decreases segs@.len() - i,
    {
        let ws = split_words(segs[i].as_str());
        let ghost before = out@;
        out.push(ws);
        assert(segs@.map_values(|x: String| x@)[i as int] == segs@[i as int]@);
        assert(lines_view(out@) =~= lines_view(before).push(words(segs@[i as int]@)));
        i = i + 1;
    }
    assert(command_words_of(cmd@).take(i as int) =~= command_words_of(cmd@));
    out
}

/// Why a command could not be turned into argument vectors.
#[derive(Debug, PartialEq, Eq)]
pub enum ExpandError {
    /// A sub-command has no program to run: it is blank, or its first token
    /// expanded to nothing.
    EmptyProgram,
    /// The variable of this name is not set, or its value is not valid
    /// Unicode.
    Lookup(String),
}

/// Relies on `shellexpand::full`: it expands `$NAME` and `${NAME}` from the
/// process environment and a leading `~` from the home directory. It fails,
/// giving the variable's name, only where a `$` names a variable that is
/// unset or whose value is not valid Unicode, and it returns a token with no
/// `$` and no leading `~` as it is.
#[verifier::external_body]
fn expand_token(token: &str) -> (r: Result<String, String>)
    ensures
        !token@.contains('$') ==> r.is_ok(),
        is_literal(token@) ==> r.is_ok() && r->Ok_0@ == token@,
{
    match shellexpand::full(token) {
        Ok(v) => Ok(v.into_owned()),
        Err(e) => Err(e.var_name),
    }
}

/// Every sub-command has at least one token.
pub open spec fn all_have_program(cw: Seq<Seq<Seq<char>>>) -> bool {
    forall|i: int| 0 <= i < cw.len() ==> #[trigger] cw[i].len() > 0
}

/// Every token of every sub-command is left as it is by expansion.
pub open spec fn all_literal(cw: Seq<Seq<Seq<char>>>) -> bool {
    forall|i: int, j: int|
        0 <= i < cw.len() && 0 <= j < cw[i].len() ==> is_literal(#[trigger] cw[i][j])
}

/// Some token of some sub-command holds a `$`.
pub open spec fn any_dollar(cw: Seq<Seq<Seq<char>>>) -> bool {
    exists|i: int, j: int|
        0 <= i < cw.len() && 0 <= j < cw[i].len() && (#[trigger] cw[i][j]).contains('$')
}

/// What holds of the argument vectors `v` made from the tokens `cw`, whatever
/// the environment held: one vector per sub-command, one argument per token,
/// a program name that is not empty, and literal tokens kept as they are.
pub open spec fn expands_to(cw: Seq<Seq<Seq<char>>>, v: Seq<Seq<Seq<char>>>) -> bool {
    &&& v.len() == cw.len()
    &&& forall|i: int| 0 <= i < v.len() ==> (#[trigger] v[i]).len() == cw[i].len()
    &&& forall|i: int| 0 <= i < v.len() ==> (#[trigger] v[i]).len() > 0 && v[i][0].len() > 0
    &&& forall|i: int, j: int|
        0 <= i < v.len() && 0 <= j < v[i].len() && is_literal(cw[i][j]) ==> #[trigger] v[i][j]
            == cw[i][j]
}

/// The view of one expansion result.
pub open spec fn result_view(r: Result<String, String>) -> Result<Seq<char>, Seq<char>> {
    match r {
        Ok(t) => Ok(t@),
        Err(n) => Err(n@),
    }
}

/// The view of the expansion results of every token of every sub-command.
pub open spec fn results_view(g: Seq<Vec<Result<String, String>>>) -> Seq<
    Seq<Result<Seq<char>, Seq<char>>>,
> {
    g.map_values(|row: Vec<Result<String, String>>| row@.map_values(|r: Result<String, String>| result_view(r)))
}

/// Token `j` of sub-command `i` failed, and every token before it, sub-command
/// by sub-command, succeeded.
pub open spec fn is_first_err(g: Seq<Seq<Result<Seq<char>, Seq<char>>>>, i: int, j: int) -> bool {
    &&& 0 <= i < g.len()
    &&& 0 <= j < g[i].len()
    &&& g[i][j] is Err
    &&& forall|a: int, b: int|
        0 <= a < g.len() && 0 <= b < g[a].len() && (a < i || (a == i && b < j)) ==> (#[trigger] g[a][b]) is Ok
}

/// What a list of expansion results comes to.
pub enum Assembled {
    /// The argument vectors.
    Lines(Seq<Seq<Seq<char>>>),
    /// The first variable that could not be looked up.
    Missing(Seq<char>),
    /// Some sub-command has no program name.
    NoProgram,
}

/// The first failed lookup, in order, decides; else a sub-command with no
/// token or an empty first token is refused; else the values are the
/// argument vectors.
pub open spec fn assembled(g: Seq<Seq<Result<Seq<char>, Seq<char>>>>) -> Assembled {
    if exists|i: int, j: int| is_first_err(g, i, j) {
        let (i, j) = choose|i: int, j: int| is_first_err(g, i, j);
        Assembled::Missing(g[i][j]->Err_0)
    } else if exists|i: int| 0 <= i < g.len() && ((#[trigger] g[i]).len() == 0 || g[i][0]->Ok_0.len() == 0) {
        Assembled::NoProgram
    } else {
        Assembled::Lines(g.map_values(|row: Seq<Result<Seq<char>, Seq<char>>>| row.map_values(|x: Result<Seq<char>, Seq<char>>| x->Ok_0)))
    }
}

/// What an expansion comes to, in the terms of [`assembled`].
pub open spec fn outcome_of(r: Result<Vec<Vec<String>>, ExpandError>) -> Assembled {
    match r {
        Ok(v) => Assembled::Lines(lines_view(v@)),
        Err(ExpandError::Lookup(n)) => Assembled::Missing(n@),
        Err(ExpandError::EmptyProgram) => Assembled::NoProgram,
    }
}

proof fn lemma_first_err_unique(g: Seq<Seq<Result<Seq<char>, Seq<char>>>>, i: int, j: int)
    requires
        is_first_err(g, i, j),
    ensures
        assembled(g) == Assembled::Missing(g[i][j]->Err_0),
{
    let (a, b) = choose|a: int, b: int| is_first_err(g, a, b);
    if a < i || (a == i && b < j) {
        assert(g[a][b] is Ok);
    } else if i < a || (i == a && j < b) {
        assert(g[i][j] is Ok);
    }
}

/// Turns the expansion results of every token of every sub-command into the
/// argument vectors: the first failed lookup is reported by name; then a
/// sub-command with no token or an empty program name is refused; otherwise
/// the values come back as they are.
pub fn assemble_lines(got: &Vec<Vec<Result<String, String>>>) -> (r: Result<Vec<Vec<String>>, ExpandError>)
    ensures
        outcome_of(r) == assembled(results_view(got@)),
{
    let ghost g = results_view(got@);
    let mut i: usize = 0;
    while i < got.len()
        invariant
            i <= got@.len(),
            g == results_view(got@),
            forall|a: int, b: int|
                0 <= a < i && 0 <= b < g[a].len() ==> (#[trigger] g[a][b]) is Ok,
        decreases got@.len() - i,
    {
        let mut j: usize = 0;
        assert(g[i as int] == got@[i as int]@.map_values(|r: Result<String, String>| result_view(r)));
        while j < got[i].len()
            invariant
                i < got@.len(),
                j <= got@[i as int]@.len(),
                g == results_view(got@),
                g[i as int] == got@[i as int]@.map_values(|r: Result<String, String>| result_view(r)),
                forall|a: int, b: int|
                    0 <= a < i && 0 <= b < g[a].len() ==> (#[trigger] g[a][b]) is Ok,
                forall|b: int| 0 <= b < j ==> (#[trigger] g[i as int][b]) is Ok,
            decreases got@[i as int]@.len() - j,
        {
            match &got[i][j] {
                Ok(_) => {},
                Err(name) => {
                    proof {
                        assert(g[i as int][j as int] == result_view(got@[i as int]@[j as int]));
                        assert(is_first_err(g, i as int, j as int));
                        lemma_first_err_unique(g, i as int, j as int);
                    }
                    return Err(ExpandError::Lookup(name.clone()));
                },
            }
            j = j + 1;
        }
        i = i + 1;
    }
    assert(!exists|a: int, b: int| is_first_err(g, a, b));
    let ghost vals = g.map_values(|row: Seq<Result<Seq<char>, Seq<char>>>| row.map_values(|x: Result<Seq<char>, Seq<char>>| x->Ok_0));
    let mut out: Vec<Vec<String>> = Vec::new();
    let mut k: usize = 0;
    while k < got.len()
        invariant
            k <= got@.len(),
            g == results_view(got@),
            !exists|a: int, b: int| is_first_err(g, a, b),
            forall|a: int, b: int| 0 <= a < g.len() && 0 <= b < g[a].len() ==> (#[trigger] g[a][b]) is Ok,
            vals == g.map_values(|row: Seq<Result<Seq<char>, Seq<char>>>| row.map_values(|x: Result<Seq<char>, Seq<char>>| x->Ok_0)),
            forall|a: int| 0 <= a < k ==> (#[trigger] g[a]).len() > 0 && g[a][0]->Ok_0.len() > 0,
            lines_view(out@) =~= vals.take(k as int),
        decreases got@.len() - k,
    {
        let row = &got[k];
        assert(g[k as int] == row@.map_values(|r: Result<String, String>| result_view(r)));
        let mut line: Vec<String> = Vec::new();
        let mut j: usize = 0;
        while j < row.len()
            invariant
                k < got@.len(),
                row == &got@[k as int],
                j <= row@.len(),
                g == results_view(got@),
                g[k as int] == row@.map_values(|r: Result<String, String>| result_view(r)),
                forall|b: int| 0 <= b < g[k as int].len() ==> (#[trigger] g[k as int][b]) is Ok,
                g.len() == got@.len(),
                vals.len() == g.len(),
                line@.map_values(|x: String| x@) =~= vals[k as int].take(j as int),
                vals[k as int] == g[k as int].map_values(|x: Result<Seq<char>, Seq<char>>| x->Ok_0),
            decreases row@.len() - j,
        {
            assert(g[k as int][j as int] == result_view(row@[j as int]));
            match &row[j] {
                Ok(t) => {
                    let ghost before = line@;
                    line.push(t.clone());
                    assert(g[k as int][j as int]->Ok_0 == t@);
                    assert(vals[k as int][j as int] == t@);
                    assert(line@.map_values(|x: String| x@) =~= before.map_values(|x: String| x@).push(t@));
                    assert(vals[k as int].take(j + 1) =~= vals[k as int].take(j as int).push(t@));
                },
                Err(_) => {
                    assert(false);
                    return Err(ExpandError::EmptyProgram);
                },
            }
            j = j + 1;
        }
        assert(vals[k as int].take(j as int) =~= vals[k as int]);
        assert(line@.map_values(|x: String| x@) == vals[k as int]);
        if row.len() > 0 {
            assert(line@.map_values(|x: String| x@)[0] == line@[0]@);
            assert(vals[k as int][0] == g[k as int][0]->Ok_0);
        }
        if row.len() == 0 || line[0].unicode_len() == 0 {
            proof {
                assert(g[k as int].len() == 0 || g[k as int][0]->Ok_0.len() == 0);
            }
            return Err(ExpandError::EmptyProgram);
        }
        let ghost before = out@;
        out.push(line);
        assert(lines_view(out@) =~= lines_view(before).push(vals[k as int]));
        assert(vals.take(k + 1) =~= vals.take(k as int).push(vals[k as int]));
        k = k + 1;
    }
    assert(vals.take(k as int) =~= vals);
    Ok(out)
}

/// What holds of the expansion results `g` of the tokens `cw`, whatever the
/// environment held: one result per token, a token with no `$` expands, and
/// a token with no `$` and no leading `~` comes back as it is.
pub open spec fn expansion_of(cw: Seq<Seq<Seq<char>>>, g: Seq<Seq<Result<Seq<char>, Seq<char>>>>) -> bool {
    &&& g.len() == cw.len()
    &&& forall|i: int| 0 <= i < g.len() ==> (#[trigger] g[i]).len() == cw[i].len()
    &&& forall|i: int, j: int|
        0 <= i < g.len() && 0 <= j < g[i].len() && !cw[i][j].contains('$') ==> (#[trigger] g[i][j]) is Ok
    &&& forall|i: int, j: int|
        0 <= i < g.len() && 0 <= j < g[i].len() && is_literal(cw[i][j]) ==> #[trigger] g[i][j]
            == Ok::<Seq<char>, Seq<char>>(cw[i][j])
}

/// Expands every token of every sub-command, keeping each result.
fn expand_all(cw: &Vec<Vec<String>>) -> (r: Vec<Vec<Result<String, String>>>)
    ensures
        expansion_of(lines_view(cw@), results_view(r@)),
{
    let ghost c = lines_view(cw@);
    let mut out: Vec<Vec<Result<String, String>>> = Vec::new();
    let mut i: usize = 0;
    while i < cw.len()
        invariant
            i <= cw@.len(),
            c == lines_view(cw@),
            expansion_of(c.take(i as int), results_view(out@)),
        decreases cw@.len() - i,
    {
        let ws = &cw[i];
        assert(c[i as int] == ws@.map_values(|x: String| x@));
        let mut row: Vec<Result<String, String>> = Vec::new();
        let mut j: usize = 0;
        while j < ws.len()
            invariant
                i < cw@.len(),
                ws == &cw@[i as int],
                c == lines_view(cw@),
                c[i as int] == ws@.map_values(|x: String| x@),
                j <= ws@.len(),
                row@.len() == j,
                forall|b: int| 0 <= b < j && !c[i as int][b].contains('$') ==> (#[trigger] result_view(row@[b])) is Ok,
                forall|b: int| 0 <= b < j && is_literal(c[i as int][b]) ==> #[trigger] result_view(row@[b])
                    == Ok::<Seq<char>, Seq<char>>(c[i as int][b]),
            decreases ws@.len() - j,
        {
            assert(c[i as int][j as int] == ws@[j as int]@);
            row.push(expand_token(ws[j].as_str()));
            j = j + 1;
        }
        let ghost before = results_view(out@);
        out.push(row);
        proof {
            let rv = row@.map_values(|r: Result<String, String>| result_view(r));
            assert(results_view(out@) =~= before.push(rv));
            assert(c.take(i + 1) =~= c.take(i as int).push(c[i as int]));
            assert forall|b: int| 0 <= b < rv.len() implies #[trigger] rv[b] == result_view(row@[b]) by {}
        }
        i = i + 1;
    }
    assert(c.take(i as int) =~= c);
    out
}

/// Where no token fails before it, a failed token is preceded by a first
/// failed one.
proof fn lemma_first_err_exists(g: Seq<Seq<Result<Seq<char>, Seq<char>>>>, i: int, j: int)
    requires
        0 <= i < g.len(),
        0 <= j < g[i].len(),
        g[i][j] is Err,
    ensures
        exists|a: int, b: int| is_first_err(g, a, b),
    decreases i, j,
{
    if !is_first_err(g, i, j) {
        let (a, b) = choose|a: int, b: int|
            0 <= a < g.len() && 0 <= b < g[a].len() && (a < i || (a == i && b < j)) && !(g[a][b] is Ok);
        lemma_first_err_exists(g, a, b);
    }
}

/// What [`assembled`] gives on the expansion of the tokens of a command
/// whose every sub-command has a token.
proof fn lemma_assembled_facts(s: Seq<char>, g: Seq<Seq<Result<Seq<char>, Seq<char>>>>)
    requires
        all_have_program(command_words_of(s)),
        expansion_of(command_words_of(s), g),
    ensures
        assembled(g) matches Assembled::Lines(ls) ==> expands_to(command_words_of(s), ls),
        all_literal(command_words_of(s)) ==> assembled(g) == Assembled::Lines(command_words_of(s)),
        assembled(g) is Missing ==> any_dollar(command_words_of(s)),
        assembled(g) is NoProgram ==> exists|i: int|
            0 <= i < command_words_of(s).len() && ((#[trigger] command_words_of(s)[i]).len() == 0
                || !is_literal(command_words_of(s)[i][0])),
{
    let cw = command_words_of(s);
    let no_err = !exists|a: int, b: int| is_first_err(g, a, b);
    if no_err {
        assert forall|a: int, b: int| 0 <= a < g.len() && 0 <= b < g[a].len() implies (#[trigger] g[a][b]) is Ok by {
            if !(g[a][b] is Ok) {
                lemma_first_err_exists(g, a, b);
            }
        }
    }
    if all_literal(cw) {
        assert forall|i: int| 0 <= i < g.len() implies (#[trigger] g[i]).len() > 0 && g[i][0]->Ok_0.len() > 0 by {
            lemma_words_of_program(s, i);
            assert(g[i][0] == Ok::<Seq<char>, Seq<char>>(cw[i][0]));
        }
        if !no_err {
            let (a, b) = choose|a: int, b: int| is_first_err(g, a, b);
            assert(g[a][b] == Ok::<Seq<char>, Seq<char>>(cw[a][b]));
        }
        let ls = g.map_values(|row: Seq<Result<Seq<char>, Seq<char>>>| row.map_values(|x: Result<Seq<char>, Seq<char>>| x->Ok_0));
        assert forall|i: int| 0 <= i < ls.len() implies #[trigger] ls[i] == cw[i] by {
            assert forall|j: int| 0 <= j < ls[i].len() implies #[trigger] ls[i][j] == cw[i][j] by {
                assert(g[i][j] == Ok::<Seq<char>, Seq<char>>(cw[i][j]));
            }
            assert(ls[i] =~= cw[i]);
        }
        assert(ls =~= cw);
    }
    if let Assembled::Lines(ls) = assembled(g) {
        assert forall|i: int| 0 <= i < ls.len() implies (#[trigger] ls[i]).len() == cw[i].len() && ls[i].len() > 0 && ls[i][0].len() > 0 by {
            assert(g[i].len() > 0 && g[i][0]->Ok_0.len() > 0);
        }
        assert forall|i: int, j: int|
            0 <= i < ls.len() && 0 <= j < ls[i].len() && is_literal(cw[i][j]) implies #[trigger] ls[i][j] == cw[i][j] by {
            assert(g[i][j] == Ok::<Seq<char>, Seq<char>>(cw[i][j]));
        }
    }
    if assembled(g) is Missing {
        let (a, b) = choose|a: int, b: int| is_first_err(g, a, b);
        assert(cw[a][b].contains('$'));
    }
    if assembled(g) is NoProgram {
        let i = choose|i: int| 0 <= i < g.len() && ((#[trigger] g[i]).len() == 0 || g[i][0]->Ok_0.len() == 0);
        lemma_words_of_program(s, i);
        if is_literal(cw[i][0]) {
            assert(g[i][0] == Ok::<Seq<char>, Seq<char>>(cw[i][0]));
        }
        assert(cw[i].len() == 0 || !is_literal(cw[i][0]));
    }
}

/// Turns a command string into one argument vector per sub-command, the
/// program name first.
///
/// A blank sub-command is refused before anything is expanded. Otherwise
/// every token is expanded and the results are put together by
/// [`assemble_lines`]; a command whose tokens hold no `$` and no leading `~`
/// comes back token for token.
pub fn expand_command(cmd: &str) -> (r: Result<Vec<Vec<String>>, ExpandError>)
    ensures
        !all_have_program(command_words_of(cmd@)) ==> r == Err::<Vec<Vec<String>>, ExpandError>(
            ExpandError::EmptyProgram,
        ),
        all_have_program(command_words_of(cmd@)) ==> exists|g: Seq<Seq<Result<Seq<char>, Seq<char>>>>|
            expansion_of(command_words_of(cmd@), g) && outcome_of(r) == #[trigger] assembled(g),
        r matches Ok(v) ==> expands_to(command_words_of(cmd@), lines_view(v@)),
        all_have_program(command_words_of(cmd@)) && all_literal(command_words_of(cmd@)) ==> (
        r matches Ok(v) && lines_view(v@) == command_words_of(cmd@)),
        r matches Err(ExpandError::Lookup(_)) ==> any_dollar(command_words_of(cmd@)),
        r == Err::<Vec<Vec<String>>, ExpandError>(ExpandError::EmptyProgram) ==> exists|i: int|
            0 <= i < command_words_of(cmd@).len() && ((#[trigger] command_words_of(cmd@)[i]).len()
                == 0 || !is_literal(command_words_of(cmd@)[i][0])),
{
    let cw = command_words(cmd);
    let ghost g = command_words_of(cmd@);
    assert(g.len() == cw@.len());
    let mut k: usize = 0;
    while k < cw.len()
        invariant
            k <= cw@.len(),
            lines_view(cw@) == g,
            g == command_words_of(cmd@),
            g.len() == cw@.len(),
            forall|i: int| 0 <= i < k ==> #[trigger] g[i].len() > 0,
        decreases cw@.len() - k,
    {
        assert(g[k as int] == cw@[k as int]@.map_values(|x: String| x@));
        if cw[k].len() == 0 {
            assert(g[k as int].len() == 0);
            assert(g[k as int].len() == 0 || !is_literal(g[k as int][0]));
            return Err(ExpandError::EmptyProgram);
        }
        k = k + 1;
    }
    let got = expand_all(&cw);
    let r = assemble_lines(&got);
    proof {
        lemma_assembled_facts(cmd@, results_view(got@));
        assert(expansion_of(g, results_view(got@)) && outcome_of(r) == assembled(results_view(got@)));
    }
    r
}

/// Every token of every sub-command is a non-empty word.
pub proof fn lemma_words_of_program(s: Seq<char>, i: int)
    requires
        0 <= i < command_words_of(s).len(),
    ensures
        forall|j: int|
            0 <= j < command_words_of(s)[i].len() ==> #[trigger] command_words_of(s)[i][j].len()
                > 0,
{
    lemma_words_nonempty(segments(s)[i]);
}

/// Where every token is literal, the expansion is the tokens themselves.
pub proof fn lemma_literal_expansion(cw: Seq<Seq<Seq<char>>>, v: Seq<Seq<Seq<char>>>)
    requires
        expands_to(cw, v),
        all_literal(cw),
    ensures
        v == cw,
{
    assert forall|i: int| 0 <= i < v.len() implies #[trigger] v[i] == cw[i] by {
        assert forall|j: int| 0 <= j < v[i].len() implies #[trigger] v[i][j] == cw[i][j] by {
            assert(is_literal(cw[i][j]));
        }
        assert(v[i] =~= cw[i]);
    }
    assert(v =~= cw);
}

} // verus!
