//! URI-Template translation.
//!
//! Forms carry their access point as a URI Template (a subset of RFC 6570).
//! The router instead understands path patterns made of literal segments and
//! named single-segment parameters (`:name`).  [`uritemplate_to_axum`]
//! converts the former into the latter:
//!
//! - literal text is copied verbatim;
//! - `{name}` (the simple operator) becomes `:name` in place, and must name
//!   exactly one variable;
//! - `{/a,b}` (the path operator) appends one `/:name` segment per variable;
//! - `{?...}` and `{#...}` (query and fragment) end the translation, the
//!   remaining template text is not part of a routable path;
//! - the `+`, `.`, `;` and `&` operators are not supported for form hrefs and
//!   fail the translation;
//! - an expression that is never closed turns the remaining text into plain
//!   literal text;
//! - a variable's `*` or `:len` modifier is not part of its name.

use vstd::prelude::*;

verus! {

/// Why a URI Template could not be translated into a route path.
#[derive(Debug, Clone, Copy, PartialEq, Eq, Structural)]
pub enum TemplateError {
    /// A simple-operator expression must name exactly one variable.
    MultipleVariables,
    /// The `+`, `.`, `;` and `&` operators cannot appear in a form href.
    UnsupportedOperator,
}

/// Index of the first occurrence of `c` in `s`, if any.
pub open spec fn first_index(s: Seq<char>, c: char) -> Option<int>
    decreases s.len(),
{
    if s.len() == 0 {
        None
    } else if s[0] == c {
        Some(0)
    } else {
        match first_index(s.skip(1), c) {
            None => None,
            Some(i) => Some(i + 1),
        }
    }
}

/// What `first_index` returns: the index of the first occurrence.
pub proof fn lemma_first_index(s: Seq<char>, c: char)
    ensures
        match first_index(s, c) {
            Some(i) => 0 <= i < s.len() && s[i] == c && (forall|k: int|
                0 <= k < i ==> s[k] != c),
            None => forall|k: int| 0 <= k < s.len() ==> s[k] != c,
        },
    decreases s.len(),
{
    if s.len() > 0 && s[0] != c {
        let t = s.skip(1);
        lemma_first_index(t, c);
        match first_index(t, c) {
            Some(i) => {
                assert(s[i + 1] == t[i]);
                assert forall|k: int| 0 <= k < i + 1 implies s[k] != c by {
                    if k > 0 {
                        assert(t[k - 1] == s[k]);
                    }
                }
            },
            None => {
                assert forall|k: int| 0 <= k < s.len() implies s[k] != c by {
                    if k > 0 {
                        assert(t[k - 1] == s[k]);
                    }
                }
            },
        }
    }
}

/// A scan that stopped at `i` determines `first_index`: nothing before `i`
/// is `c`, and either `s[i]` is `c` or the scan ran off the end.
pub proof fn lemma_first_index_at(s: Seq<char>, c: char, i: int)
    requires
        0 <= i <= s.len(),
        forall|k: int| 0 <= k < i ==> s[k] != c,
        i < s.len() ==> s[i] == c,
    ensures
        first_index(s, c) == if i < s.len() {
            Some(i)
        } else {
            None::<int>
        },
{
    lemma_first_index(s, c);
    match first_index(s, c) {
        Some(x) => {
            assert(s[x] == c);
            if x < i {
                assert(s[x] != c);
            }
            if x > i {
                assert(i < s.len());
                assert(s[i] != c);
            }
        },
        None => {
            if i < s.len() {
                assert(s[i] != c);
            }
        },
    }
}

/// The comma-separated pieces of `s`; an empty sequence has one empty piece.
pub open spec fn split_commas(s: Seq<char>) -> Seq<Seq<char>>
    decreases s.len(),
    via split_commas_decreases
{
    match first_index(s, ',') {
        None => seq![s],
        Some(i) => seq![s.take(i)] + split_commas(s.skip(i + 1)),
    }
}

#[via_fn]
proof fn split_commas_decreases(s: Seq<char>) {
    lemma_first_index(s, ',');
}

proof fn lemma_split_commas_len(s: Seq<char>)
    ensures
        split_commas(s).len() >= 1,
    decreases s.len(),
{
    match first_index(s, ',') {
        None => {},
        Some(i) => {
            lemma_first_index(s, ',');
            lemma_split_commas_len(s.skip(i + 1));
        },
    }
}

/// A variable's name: the varspec with its `*` or `:len` modifier removed.
pub open spec fn var_name(v: Seq<char>) -> Seq<char> {
    if v.len() > 0 && v[v.len() - 1] == '*' {
        v.take(v.len() - 1)
    } else {
        match first_index(v, ':') {
            Some(i) => v.take(i),
            None => v,
        }
    }
}

/// One `/:name` path segment per variable.
pub open spec fn spec_path_params(vars: Seq<Seq<char>>) -> Seq<char>
    decreases vars.len(),
{
    if vars.len() == 0 {
        Seq::empty()
    } else {
        seq!['/', ':'] + var_name(vars[0]) + spec_path_params(vars.drop_first())
    }
}

/// What one `{...}` expression contributes to the translation.
pub enum ExprOutcome {
    /// Query or fragment operator: translation ends here.
    Halt,
    /// The expression maps to this piece of the route path.
    Segment(Seq<char>),
    /// The expression is not translatable.
    Fail(TemplateError),
}

/// Translation of the contents `e` of one `{e}` expression.
pub open spec fn spec_expand_expr(e: Seq<char>) -> ExprOutcome {
    if e.len() == 0 {
        ExprOutcome::Fail(TemplateError::MultipleVariables)
    } else if e[0] == '?' || e[0] == '#' {
        ExprOutcome::Halt
    } else if e[0] == '+' || e[0] == '.' || e[0] == ';' || e[0] == '&' {
        ExprOutcome::Fail(TemplateError::UnsupportedOperator)
    } else if e[0] == '/' {
        ExprOutcome::Segment(spec_path_params(split_commas(e.skip(1))))
    } else {
        let vars = split_commas(e);
        if vars.len() == 1 {
            ExprOutcome::Segment(seq![':'] + var_name(vars[0]))
        } else {
            ExprOutcome::Fail(TemplateError::MultipleVariables)
        }
    }
}

/// The route path that URI Template `s` translates to, or the error that
/// makes it untranslatable.  This is the reference meaning of
/// [`uritemplate_to_axum`].
pub open spec fn spec_translate(s: Seq<char>) -> Result<Seq<char>, TemplateError>
    decreases s.len(),
    via spec_translate_decreases
{
    if s.len() == 0 {
        Ok(Seq::empty())
    } else if s[0] == '{' {
        match first_index(s.skip(1), '}') {
            // No closing brace: the rest of the template is literal text.
            None => Ok(s.skip(1)),
            Some(j) => {
                let expr = s.skip(1).take(j);
                let rest = s.skip(1).skip(j + 1);
                match spec_expand_expr(expr) {
                    ExprOutcome::Halt => Ok(Seq::empty()),
                    ExprOutcome::Fail(e) => Err(e),
                    ExprOutcome::Segment(t) => match spec_translate(rest) {
                        Ok(tail) => Ok(t + tail),
                        Err(e) => Err(e),
                    },
                }
            },
        }
    } else {
        match spec_translate(s.skip(1)) {
            Ok(tail) => Ok(seq![s[0]] + tail),
            Err(e) => Err(e),
        }
    }
}

#[via_fn]
proof fn spec_translate_decreases(s: Seq<char>) {
    if s.len() > 0 && s[0] == '{' {
        lemma_first_index(s.skip(1), '}');
    }
}

/// Prefixing a translation result with already-translated text.
pub open spec fn glue(p: Seq<char>, r: Result<Seq<char>, TemplateError>) -> Result<
    Seq<char>,
    TemplateError,
> {
    match r {
        Ok(t) => Ok(p + t),
        Err(e) => Err(e),
    }
}

proof fn lemma_glue_assoc(p: Seq<char>, q: Seq<char>, r: Result<Seq<char>, TemplateError>)
    ensures
        glue(p, glue(q, r)) == glue(p + q, r),
{
    match r {
        Ok(t) => {
            assert(p + (q + t) =~= (p + q) + t);
        },
        Err(_) => {},
    }
}

/// The characters of `s`, as a vector.
pub(crate) fn to_char_vec(s: &str) -> (v: Vec<char>)
    ensures
        v@ == s@,
{
    let n = s.unicode_len();
    let mut v: Vec<char> = Vec::new();
    let mut i: usize = 0;
    while i < n
        invariant
            n == s@.len(),
            i <= n,
            v@ == s@.take(i as int),
        decreases n - i,
    {
        let c = s.get_char(i);
        v.push(c);
        proof {
            assert(v@ =~= s@.take(i + 1));
        }
        i = i + 1;
    }
    proof {
        assert(v@ =~= s@);
    }
    v
}

/// Relies on `core::iter::Iterator::collect`: collecting `char`s builds the
/// `String` holding exactly those characters.
#[verifier::external_body]
pub(crate) fn chars_to_string(v: Vec<char>) -> (s: String)
    ensures
        s@ == v@,
{
    v.into_iter().collect()
}

/// Append `cs[from..to]` to `out`.
pub(crate) fn push_range(out: &mut Vec<char>, cs: &Vec<char>, from: usize, to: usize)
    requires
        from <= to <= cs@.len(),
    ensures
        final(out)@ == old(out)@ + cs@.subrange(from as int, to as int),
{
    let ghost base = old(out)@;
    let mut k = from;
    while k < to
        invariant
            from <= k <= to <= cs@.len(),
            out@ == base + cs@.subrange(from as int, k as int),
        decreases to - k,
    {
        out.push(cs[k]);
        proof {
            assert(base + cs@.subrange(from as int, k + 1) =~= (base + cs@.subrange(
                from as int,
                k as int,
            )).push(cs@[k as int]));
        }
        k = k + 1;
    }
    proof {
        assert(out@ =~= base + cs@.subrange(from as int, to as int));
    }
}

/// Append the name of the variable spelled `cs[from..to]` to `out`:
/// the varspec without its `*` or `:len` modifier.
fn push_var_name(out: &mut Vec<char>, cs: &Vec<char>, from: usize, to: usize)
    requires
        from <= to <= cs@.len(),
    ensures
        final(out)@ == old(out)@ + var_name(cs@.subrange(from as int, to as int)),
{
    let ghost v = cs@.subrange(from as int, to as int);
    if to > from && cs[to - 1] == '*' {
        push_range(out, cs, from, to - 1);
        proof {
            assert(v[v.len() - 1] == '*');
            assert(v.take(v.len() - 1) =~= cs@.subrange(from as int, to - 1));
        }
    } else {
        // Find the first ':' of the varspec, if any.
        let mut t = from;
        while t < to && cs[t] != ':'
            invariant
                from <= t <= to <= cs@.len(),
                forall|k: int| from <= k < t ==> cs@[k] != ':',
            decreases to - t,
        {
            t = t + 1;
        }
        proof {
            assert forall|x: int| 0 <= x < t - from implies v[x] != ':' by {
                assert(v[x] == cs@[from + x]);
            }
            if t < to {
                assert(v[t - from] == ':');
            }
            lemma_first_index_at(v, ':', t - from);
        }
        push_range(out, cs, from, t);
        proof {
            if t < to {
                assert(v.take(t - from) =~= cs@.subrange(from as int, t as int));
            } else {
                assert(v =~= cs@.subrange(from as int, t as int));
                if v.len() > 0 {
                    assert(v[v.len() - 1] != '*') by {
                        assert(v[v.len() - 1] == cs@[to - 1]);
                    }
                }
            }
        }
    }
}

/// Append, to `out`, one `/:name` segment for every comma-separated variable
/// of `cs[from..to]`.
#[verifier::loop_isolation(false)]
fn push_path_params(out: &mut Vec<char>, cs: &Vec<char>, from: usize, to: usize)
    requires
        from <= to <= cs@.len(),
    ensures
        final(out)@ == old(out)@ + spec_path_params(split_commas(cs@.subrange(from as int, to as int))),
{
    let ghost whole = cs@.subrange(from as int, to as int);
    let ghost base = old(out)@;
    let mut k = from;
    loop
        invariant
            from <= k <= to <= cs@.len(),
            whole == cs@.subrange(from as int, to as int),
            glue(base, Ok(spec_path_params(split_commas(whole)))) == glue(
                out@,
                Ok(spec_path_params(split_commas(cs@.subrange(k as int, to as int)))),
            ),
        decreases to - k,
    {
        let ghost piece = cs@.subrange(k as int, to as int);
        // Find the next comma.
        let mut m = k;
        while m < to && cs[m] != ','
            invariant
                k <= m <= to <= cs@.len(),
                forall|j: int| k <= j < m ==> cs@[j] != ',',
            decreases to - m,
        {
            m = m + 1;
        }
        proof {
            assert forall|x: int| 0 <= x < m - k implies piece[x] != ',' by {
                assert(piece[x] == cs@[k + x]);
            }
            if m < to {
                assert(piece[m - k] == ',');
            }
            lemma_first_index_at(piece, ',', m - k);
        }
        let ghost pre = out@;
        out.push('/');
        out.push(':');
        push_var_name(out, cs, k, m);
        proof {
            assert(cs@.subrange(k as int, m as int) =~= piece.take(m - k));
            assert(out@ =~= pre + (seq!['/', ':'] + var_name(piece.take(m - k))));
        }
        if m == to {
            proof {
                let vn = var_name(piece);
                assert(piece.take(m - k) =~= piece);
                assert(split_commas(piece) == seq![piece]);
                assert(seq![piece].drop_first() =~= Seq::<Seq<char>>::empty());
                assert(spec_path_params(split_commas(piece)) == seq!['/', ':'] + vn
                    + spec_path_params(Seq::<Seq<char>>::empty()));
                assert(spec_path_params(split_commas(piece)) =~= seq!['/', ':'] + vn);
                // The loop invariant, with both sides unfolded:
                assert(base + spec_path_params(split_commas(whole)) == pre + spec_path_params(
                    split_commas(piece),
                ));
                assert(out@ =~= base + spec_path_params(split_commas(whole))) by {
                    assert(pre + spec_path_params(split_commas(piece)) =~= pre + (seq!['/', ':']
                        + vn));
                }
            }
            return ;
        }
        proof {
            let i = m - k;
            let tailsplit = split_commas(piece.skip(i + 1));
            assert(split_commas(piece) == seq![piece.take(i)] + tailsplit);
            let all = seq![piece.take(i)] + tailsplit;
            assert(all[0] == piece.take(i));
            assert(all.drop_first() =~= tailsplit);
            assert(spec_path_params(all) == seq!['/', ':'] + var_name(piece.take(i))
                + spec_path_params(tailsplit));
            assert(piece.skip(i + 1) =~= cs@.subrange(m + 1, to as int));
            // Re-establish the loop invariant for k = m + 1.
            assert(pre + ((seq!['/', ':'] + var_name(piece.take(i))) + spec_path_params(tailsplit))
                =~= (pre + (seq!['/', ':'] + var_name(piece.take(i)))) + spec_path_params(
                tailsplit,
            ));
            assert(pre + spec_path_params(split_commas(piece)) =~= out@ + spec_path_params(
                split_commas(cs@.subrange(m + 1, to as int)),
            ));
        }
        k = m + 1;
    }
}

/// Translate the URI Template `uri` into a route path pattern.
///
/// Returns exactly what [`spec_translate`] says: the translated path, or the
/// error for a simple expression not naming exactly one variable or for an
/// unsupported operator.
pub fn uritemplate_to_axum(uri: &str) -> (r: Result<String, TemplateError>)
    ensures
        match spec_translate(uri@) {
            Ok(t) => r matches Ok(s) && s@ == t,
            Err(e) => r matches Err(e2) && e2 == e,
        },
{
    let cs = to_char_vec(uri);
    let n = cs.len();
    let mut out: Vec<char> = Vec::new();
    let mut i: usize = 0;
    proof {
        assert(cs@.skip(0) =~= cs@);
        match spec_translate(cs@) {
            Ok(t) => {
                assert(Seq::<char>::empty() + t =~= t);
            },
            Err(_) => {},
        }
    }
    while i < n
        invariant
            n == cs@.len(),
            cs@ == uri@,
            i <= n,
            glue(out@, spec_translate(cs@.skip(i as int))) == spec_translate(cs@),
        decreases n - i,
    {
        let ghost u = cs@.skip(i as int);
        proof {
            assert(u.len() == n - i);
            assert(u[0] == cs@[i as int]);
        }
        if cs[i] != '{' {
            let ghost pre = out@;
            out.push(cs[i]);
            proof {
                assert(u.skip(1) =~= cs@.skip(i + 1));
                lemma_glue_assoc(pre, seq![u[0]], spec_translate(u.skip(1)));
                assert(spec_translate(u) == glue(seq![u[0]], spec_translate(u.skip(1))));
                assert(out@ =~= pre + seq![u[0]]);
            }
            i = i + 1;
        } else {
            // Scan for the closing brace.
            let mut j = i + 1;
            while j < n && cs[j] != '}'
                invariant
                    i + 1 <= j <= n,
                    n == cs@.len(),
                    forall|k: int| i + 1 <= k < j ==> cs@[k] != '}',
                decreases n - j,
            {
                j = j + 1;
            }
            let ghost u1 = u.skip(1);
            proof {
                assert(u1 =~= cs@.skip(i + 1));
                assert forall|x: int| 0 <= x < j - i - 1 implies u1[x] != '}' by {
                    assert(u1[x] == cs@[i + 1 + x]);
                }
                if j < n {
                    assert(u1[j - i - 1] == '}');
                }
                lemma_first_index_at(u1, '}', j - i - 1);
            }
            if j == n {
                // Unclosed expression: the rest is literal text.
                let ghost pre = out@;
                push_range(&mut out, &cs, i + 1, n);
                proof {
                    assert(spec_translate(u) == Ok::<Seq<char>, TemplateError>(u1));
                    assert(out@ =~= pre + u1);
                }
                return Ok(chars_to_string(out));
            }
            let ghost expr = u1.take(j - i - 1);
            let ghost rest = u1.skip(j - i);
            proof {
                assert(expr =~= cs@.subrange(i + 1, j as int));
                assert(rest =~= cs@.skip(j + 1));
                assert(spec_translate(u) == match spec_expand_expr(expr) {
                    ExprOutcome::Halt => Ok::<Seq<char>, TemplateError>(Seq::empty()),
                    ExprOutcome::Fail(e) => Err(e),
                    ExprOutcome::Segment(t) => match spec_translate(rest) {
                        Ok(tail) => Ok(t + tail),
                        Err(e) => Err(e),
                    },
                });
            }
            if j == i + 1 {
                // `{}`: a simple expression with no variable at all.
                proof {
                    assert(expr.len() == 0);
                }
                return Err(TemplateError::MultipleVariables);
            }
            let c0 = cs[i + 1];
            proof {
                assert(c0 == expr[0]);
            }
            if c0 == '?' || c0 == '#' {
                // Query or fragment: discard the rest of the template.
                proof {
                    assert(spec_translate(u) == Ok::<Seq<char>, TemplateError>(Seq::empty()));
                    assert(out@ + Seq::<char>::empty() =~= out@);
                }
                return Ok(chars_to_string(out));
            } else if c0 == '+' || c0 == '.' || c0 == ';' || c0 == '&' {
                return Err(TemplateError::UnsupportedOperator);
            } else if c0 == '/' {
                let ghost pre = out@;
                push_path_params(&mut out, &cs, i + 2, j);
                proof {
                    assert(expr.skip(1) =~= cs@.subrange(i + 2, j as int));
                    let t = spec_path_params(split_commas(expr.skip(1)));
                    assert(spec_expand_expr(expr) == ExprOutcome::Segment(t));
                    assert(out@ =~= pre + t);
                    lemma_glue_assoc(pre, t, spec_translate(rest));
                    assert(spec_translate(u) == glue(t, spec_translate(rest)));
                    assert(u.skip(1).skip(j - i) == rest);
                }
                i = j + 1;
            } else {
                // Simple operator: exactly one variable is allowed.
                let mut m = i + 1;
                while m < j && cs[m] != ','
                    invariant
                        i + 1 <= m <= j <= n,
                        n == cs@.len(),
                        forall|k: int| i + 1 <= k < m ==> cs@[k] != ',',
                    decreases j - m,
                {
                    m = m + 1;
                }
                proof {
                    assert forall|x: int| 0 <= x < m - i - 1 implies expr[x] != ',' by {
                        assert(expr[x] == cs@[i + 1 + x]);
                    }
                    if m < j {
                        assert(expr[m - i - 1] == ',');
                    }
                    lemma_first_index_at(expr, ',', m - i - 1);
                }
                if m < j {
                    // More than one variable under the simple operator.
                    proof {
                        lemma_split_commas_len(expr.skip(m - i));
                        assert(split_commas(expr).len() >= 2);
                    }
                    return Err(TemplateError::MultipleVariables);
                }
                let ghost pre = out@;
                out.push(':');
                push_var_name(&mut out, &cs, i + 1, j);
                proof {
                    assert(split_commas(expr) == seq![expr]);
                    assert(split_commas(expr)[0] == expr);
                    let t = seq![':'] + var_name(expr);
                    assert(spec_expand_expr(expr) == ExprOutcome::Segment(t));
                    assert(cs@.subrange(i + 1, j as int) =~= expr);
                    assert(out@ =~= pre + t);
                    lemma_glue_assoc(pre, t, spec_translate(rest));
                    assert(spec_translate(u) == glue(t, spec_translate(rest)));
                }
                i = j + 1;
            }
        }
    }
    proof {
        assert(cs@.skip(n as int) =~= Seq::<char>::empty());
        assert(spec_translate(cs@.skip(n as int)) == Ok::<Seq<char>, TemplateError>(Seq::empty()));
        assert(out@ + Seq::<char>::empty() =~= out@);
    }
    Ok(chars_to_string(out))
}

} // verus!
