//! Plain string utilities: tokenising reaction equations and comma lists.
use vstd::prelude::*;

verus! {

/// Pushing a string appends its view to the deep view.
pub proof fn lemma_deep_push(pre: Seq<String>, post: Seq<String>, t: String)
    requires
        post == pre.push(t),
    ensures
        Seq::new(post.len(), |i: int| post[i].deep_view()) =~= Seq::new(
            pre.len(),
            |i: int| pre[i].deep_view(),
        ).push(t@),
{
    let dpost = Seq::new(post.len(), |i: int| post[i].deep_view());
    let dpre = Seq::new(pre.len(), |i: int| pre[i].deep_view());
    assert forall|k: int| 0 <= k < post.len() implies #[trigger] dpost[k] == dpre.push(t@)[k] by {
        if k < pre.len() {
            assert(post[k] == pre[k]);
        } else {
            assert(post[k] == t);
        }
    }
    assert(dpost =~= dpre.push(t@));
}

/// ASCII whitespace, as the tokeniser understands it.
pub open spec fn is_space(c: char) -> bool {
    c == ' ' || c == '\t' || c == '\n' || c == '\r'
}

/// One splitting step over `s` from position `i`, carrying the current
/// token and the tokens already emitted: whitespace closes the current
/// token, anything else extends it.
pub open spec fn split_ws_acc(s: Seq<char>, i: int, cur: Seq<char>, acc: Seq<Seq<char>>) -> Seq<
    Seq<char>,
>
    decreases s.len() - i,
{
    if i < 0 || i >= s.len() {
        if cur.len() > 0 {
            acc.push(cur)
        } else {
            acc
        }
    } else if is_space(s[i]) {
        if cur.len() > 0 {
            split_ws_acc(s, i + 1, Seq::empty(), acc.push(cur))
        } else {
            split_ws_acc(s, i + 1, Seq::empty(), acc)
        }
    } else {
        split_ws_acc(s, i + 1, cur.push(s[i]), acc)
    }
}

/// The whitespace-separated tokens of a string, in order.
pub open spec fn split_whitespace_spec(s: Seq<char>) -> Seq<Seq<char>> {
    split_ws_acc(s, 0, Seq::empty(), Seq::empty())
}

/// Split on whitespace: the maximal non-blank runs of the input, in
/// order.
pub fn split_whitespace(s: &str) -> (words: Vec<String>)
    ensures
        words.deep_view() == split_whitespace_spec(s@),
{
    let n = s.unicode_len();
    let mut words: Vec<String> = Vec::new();
    proof {
        assert(words.deep_view() =~= Seq::<Seq<char>>::empty());
    }
    let mut start: usize = 0;
    let mut i: usize = 0;
    let mut in_token = false;
    while i < n
        invariant
            i <= n,
            n == s@.len(),
            in_token ==> start <= i,
            !in_token ==> start == i,
            split_ws_acc(
                s@,
                i as int,
                if in_token {
                    s@.subrange(start as int, i as int)
                } else {
                    Seq::empty()
                },
                words.deep_view(),
            ) == split_whitespace_spec(s@),
            in_token ==> s@.subrange(start as int, i as int).len() > 0,
        decreases n - i,
    {
        let c = s.get_char(i);
        let space = c == ' ' || c == '\t' || c == '\n' || c == '\r';
        if space {
            if in_token {
                let token = s.substring_char(start, i).to_owned();
                let ghost prev = words@;
                words.push(token);
                proof {
                    lemma_deep_push(prev, words@, token);
                }
                in_token = false;
            }
            start = i + 1;
            i = i + 1;
            proof {
                assert(start == i);
            }
        } else {
            if !in_token {
                in_token = true;
                proof {
                    assert(s@.subrange(start as int, i as int + 1) =~= Seq::empty().push(
                        s@[i as int],
                    ));
                }
            } else {
                proof {
                    assert(s@.subrange(start as int, i as int + 1) =~= s@.subrange(
                        start as int,
                        i as int,
                    ).push(s@[i as int]));
                }
            }
            i = i + 1;
        }
    }
    if in_token {
        let token = s.substring_char(start, n).to_owned();
        let ghost prev = words@;
        words.push(token);
        proof {
            lemma_deep_push(prev, words@, token);
        }
    }
    words
}

/// One splitting step for a separator character: the separator closes the
/// current field (fields may be empty), anything else extends it.
pub open spec fn split_sep_acc(
    s: Seq<char>,
    sep: char,
    i: int,
    cur: Seq<char>,
    acc: Seq<Seq<char>>,
) -> Seq<Seq<char>>
    decreases s.len() - i,
{
    if i < 0 || i >= s.len() {
        acc.push(cur)
    } else if s[i] == sep {
        split_sep_acc(s, sep, i + 1, Seq::empty(), acc.push(cur))
    } else {
        split_sep_acc(s, sep, i + 1, cur.push(s[i]), acc)
    }
}

/// The comma-separated fields of a string, in order; empty fields are
/// kept, so the field count is always one more than the comma count.
pub open spec fn split_comma_spec(s: Seq<char>) -> Seq<Seq<char>> {
    split_sep_acc(s, ',', 0, Seq::empty(), Seq::empty())
}

/// Split on commas, keeping empty fields.
pub fn split_comma(s: &str) -> (words: Vec<String>)
    ensures
        words.deep_view() == split_comma_spec(s@),
{
    let n = s.unicode_len();
    let mut words: Vec<String> = Vec::new();
    proof {
        assert(words.deep_view() =~= Seq::<Seq<char>>::empty());
        assert(s@.subrange(0, 0) =~= Seq::<char>::empty());
    }
    let mut start: usize = 0;
    let mut i: usize = 0;
    while i < n
        invariant
            i <= n,
            n == s@.len(),
            start <= i,
            split_sep_acc(
                s@,
                ',',
                i as int,
                s@.subrange(start as int, i as int),
                words.deep_view(),
            ) == split_comma_spec(s@),
        decreases n - i,
    {
        let c = s.get_char(i);
        if c == ',' {
            let field = s.substring_char(start, i).to_owned();
            let ghost prev = words@;
            words.push(field);
            proof {
                lemma_deep_push(prev, words@, field);
                assert(s@.subrange(i as int + 1, i as int + 1) =~= Seq::<char>::empty());
            }
            start = i + 1;
            i = i + 1;
        } else {
            proof {
                assert(s@.subrange(start as int, i as int + 1) =~= s@.subrange(
                    start as int,
                    i as int,
                ).push(s@[i as int]));
            }
            i = i + 1;
        }
    }
    let field = s.substring_char(start, n).to_owned();
    let ghost prev = words@;
    words.push(field);
    proof {
        lemma_deep_push(prev, words@, field);
    }
    words
}

/// A decimal digit.
pub open spec fn is_digit(c: char) -> bool {
    '0' <= c <= '9'
}

/// Scan of a numeric body: digits and at most one decimal point, with at
/// least one digit by the end.
pub open spec fn numeric_body(s: Seq<char>, seen_digit: bool, seen_dot: bool) -> bool
    decreases s.len(),
{
    if s.len() == 0 {
        seen_digit
    } else if is_digit(s[0]) {
        numeric_body(s.drop_first(), true, seen_dot)
    } else if s[0] == '.' {
        !seen_dot && numeric_body(s.drop_first(), seen_digit, true)
    } else {
        false
    }
}

/// A plain decimal numeric token: optional sign, then digits with at most
/// one decimal point, with at least one digit somewhere.
pub open spec fn is_numeric_token(s: Seq<char>) -> bool {
    let body = if s.len() > 0 && (s[0] == '+' || s[0] == '-') {
        s.drop_first()
    } else {
        s
    };
    numeric_body(body, false, false)
}

/// Exact test for `is_numeric_token`.
pub fn numeric_token(s: &String) -> (b: bool)
    ensures
        b == is_numeric_token(s@),
{
    let n = s.as_str().unicode_len();
    let has_sign = n > 0 && {
        let c0 = s.as_str().get_char(0);
        c0 == '+' || c0 == '-'
    };
    let start: usize = if has_sign {
        1
    } else {
        0
    };
    let ghost body = if has_sign {
        s@.drop_first()
    } else {
        s@
    };
    proof {
        assert(body.len() == n - start);
        assert(forall|t: int| 0 <= t < body.len() ==> #[trigger] body[t] == s@[t + start]);
        assert(body.skip(0) =~= body);
    }
    let mut saw_digit = false;
    let mut saw_dot = false;
    let mut i: usize = start;
    while i < n
        invariant
            start <= i <= n,
            n == s@.len(),
            body.len() == n - start,
            body == (if s@.len() > 0 && (s@[0] == '+' || s@[0] == '-') {
                s@.drop_first()
            } else {
                s@
            }),
            forall|t: int| 0 <= t < body.len() ==> #[trigger] body[t] == s@[t + start],
            numeric_body(body, false, false) == numeric_body(
                body.skip(i - start),
                saw_digit,
                saw_dot,
            ),
        decreases n - i,
    {
        let c = s.as_str().get_char(i);
        let ghost k = i - start;
        proof {
            assert(body[k as int] == s@[i as int]);
            assert(body.skip(k as int).len() == body.len() - k);
            assert(body.skip(k as int)[0] == body[k as int]);
            assert(body.skip(k as int).drop_first() =~= body.skip(k as int + 1));
        }
        if '0' <= c && c <= '9' {
            saw_digit = true;
        } else if c == '.' {
            if saw_dot {
                return false;
            }
            saw_dot = true;
        } else {
            return false;
        }
        i = i + 1;
    }
    proof {
        assert(body.skip(i - start) =~= Seq::<char>::empty());
    }
    saw_digit
}


/// One classification step over the tokens of a reaction equation:
/// numeric tokens collect as rate multipliers, `->` switches from the
/// reactant side to the product side, `+` separates, and everything else
/// is a species name of the current side.
pub open spec fn classify_acc(
    toks: Seq<Seq<char>>,
    i: int,
    before: bool,
    rs: Seq<Seq<char>>,
    ps: Seq<Seq<char>>,
    ms: Seq<Seq<char>>,
) -> (Seq<Seq<char>>, Seq<Seq<char>>, Seq<Seq<char>>)
    decreases toks.len() - i,
{
    if i < 0 || i >= toks.len() {
        (rs, ps, ms)
    } else {
        let t = toks[i];
        if is_numeric_token(t) {
            classify_acc(toks, i + 1, before, rs, ps, ms.push(t))
        } else if t == seq!['-', '>'] {
            classify_acc(toks, i + 1, false, rs, ps, ms)
        } else if t == seq!['+'] {
            classify_acc(toks, i + 1, before, rs, ps, ms)
        } else if before {
            classify_acc(toks, i + 1, before, rs.push(t), ps, ms)
        } else {
            classify_acc(toks, i + 1, before, rs, ps.push(t), ms)
        }
    }
}

/// The reactant names, product names, and numeric multiplier tokens of a
/// reaction equation such as `A + B -> C`.
pub open spec fn parse_reaction_spec(s: Seq<char>) -> (
    Seq<Seq<char>>,
    Seq<Seq<char>>,
    Seq<Seq<char>>,
) {
    classify_acc(
        split_whitespace_spec(s),
        0,
        true,
        Seq::empty(),
        Seq::empty(),
        Seq::empty(),
    )
}

/// Parse a reaction equation into reactant names, product names and
/// numeric rate-multiplier tokens.
pub fn parse_reaction_equation(s: &str) -> (out: (Vec<String>, Vec<String>, Vec<String>))
    ensures
        (out.0.deep_view(), out.1.deep_view(), out.2.deep_view()) == parse_reaction_spec(s@),
{
    let tokens = split_whitespace(s);
    let mut reactants: Vec<String> = Vec::new();
    let mut products: Vec<String> = Vec::new();
    let mut multipliers: Vec<String> = Vec::new();
    let mut before = true;
    proof {
        reveal_strlit("->");
        reveal_strlit("+");
        assert(reactants.deep_view() =~= Seq::<Seq<char>>::empty());
        assert(products.deep_view() =~= Seq::<Seq<char>>::empty());
        assert(multipliers.deep_view() =~= Seq::<Seq<char>>::empty());
    }
    let arrow = {
        let a = "->";
        a.to_owned()
    };
    let plus = {
        let p = "+";
        p.to_owned()
    };
    let n = tokens.len();
    let mut i: usize = 0;
    while i < n
        invariant
            i <= n,
            n == tokens@.len(),
            arrow@ == seq!['-', '>'],
            plus@ == seq!['+'],
            classify_acc(
                tokens.deep_view(),
                i as int,
                before,
                reactants.deep_view(),
                products.deep_view(),
                multipliers.deep_view(),
            ) == parse_reaction_spec(s@),
        decreases n - i,
    {
        let t = tokens[i].clone();
        proof {
            assert(t@ == tokens.deep_view()[i as int]);
        }
        if numeric_token(&t) {
            let ghost prev = multipliers@;
            multipliers.push(t);
            proof {
                lemma_deep_push(prev, multipliers@, tokens@[i as int]);
            }
        } else if t.eq(&arrow) {
            before = false;
        } else if t.eq(&plus) {
        } else if before {
            let ghost prev = reactants@;
            reactants.push(t);
            proof {
                lemma_deep_push(prev, reactants@, tokens@[i as int]);
            }
        } else {
            let ghost prev = products@;
            products.push(t);
            proof {
                lemma_deep_push(prev, products@, tokens@[i as int]);
            }
        }
        i = i + 1;
    }
    (reactants, products, multipliers)
}

} // verus!
