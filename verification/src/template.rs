//! File-name templates: a template string is split into literal runs and
//! variables bracketed by an opening and a closing delimiter; consumers
//! substitute the variables when expanding.

use vstd::prelude::*;

use crate::text::{chars_of_str, chars_to_string, subvec, vec_char_eq};

verus! {

/// Whether `pat` occurs in `s` starting exactly at `i`.
pub open spec fn is_match_at(s: Seq<char>, pat: Seq<char>, i: int) -> bool {
    0 <= i && i + pat.len() <= s.len() && s.subrange(i, i + pat.len()) == pat
}

/// The first position at or after `i` where `pat` occurs in `s`, or
/// `s.len()` when it occurs nowhere there.
pub open spec fn find_from(s: Seq<char>, pat: Seq<char>, i: int) -> int
    decreases s.len() - i,
{
    if i < 0 || i >= s.len() {
        s.len() as int
    } else if is_match_at(s, pat, i) {
        i
    } else {
        find_from(s, pat, i + 1)
    }
}

pub proof fn lemma_find_from(s: Seq<char>, pat: Seq<char>, i: int)
    requires
        0 <= i,
    ensures
        i <= find_from(s, pat, i) || find_from(s, pat, i) == s.len(),
        find_from(s, pat, i) <= s.len(),
        find_from(s, pat, i) < s.len() ==> is_match_at(s, pat, find_from(s, pat, i)),
        forall|j: int| i <= j < find_from(s, pat, i) ==> !is_match_at(s, pat, j),
    decreases s.len() - i,
{
    if i < s.len() && !is_match_at(s, pat, i) {
        lemma_find_from(s, pat, i + 1);
    }
}

#[verifier::loop_isolation(false)]
fn match_at(s: &Vec<char>, pat: &Vec<char>, j: usize) -> (r: bool)
    requires
        j <= s@.len(),
    ensures
        r == is_match_at(s@, pat@, j as int),
{
    if s.len() - j < pat.len() {
        return false;
    }
    proof {
        vstd::std_specs::vec::axiom_spec_len(s);
        vstd::std_specs::vec::axiom_spec_len(pat);
    }
    let mut k: usize = 0;
    while k < pat.len()
        invariant
            0 <= k <= pat@.len(),
            j + pat@.len() <= s@.len(),
            forall|m: int| 0 <= m < k ==> s@[j + m] == pat@[m],
        decreases pat@.len() - k,
    {
        if s[j + k] != pat[k] {
            proof {
                assert(s@.subrange(j as int, j + pat@.len())[k as int] == s@[j + k]);
            }
            return false;
        }
        k = k + 1;
    }
    proof {
        assert(s@.subrange(j as int, j + pat@.len()) =~= pat@);
    }
    true
}

fn find_sub(s: &Vec<char>, pat: &Vec<char>, from: usize) -> (r: usize)
    ensures
        r == find_from(s@, pat@, from as int),
        r <= s@.len(),
{
    if from >= s.len() {
        return s.len();
    }
    let mut j = from;
    loop
        invariant
            from <= j <= s@.len(),
            find_from(s@, pat@, from as int) == find_from(s@, pat@, j as int),
        decreases s@.len() - j,
    {
        if j == s.len() {
            return j;
        }
        if match_at(s, pat, j) {
            return j;
        }
        j = j + 1;
    }
}

/// One token of a template: a literal run or a variable, as a character
/// range into the template text.
#[derive(Copy, Clone, Debug)]
enum Token {
    Lit(usize, usize),
    Var(usize, usize),
}

/// The text a token denotes, marked `true` when it is a variable.
pub open spec fn token_view(s: Seq<char>, a: int, b: int, var: bool) -> (bool, Seq<char>) {
    (var, s.subrange(a, b))
}

/// The tokens of `s[i..]`: a variable starts where `open` occurs and
/// runs to the next `close`; an unclosed variable and the run before an
/// `open` are literals.
pub open spec fn spec_tokens(s: Seq<char>, open: Seq<char>, close: Seq<char>, i: int) -> Seq<
    (bool, Seq<char>),
>
    decreases s.len() - i,
    via spec_tokens_dec
{
    if i < 0 || i >= s.len() || open.len() == 0 || close.len() == 0 {
        seq![]
    } else {
        let f = find_from(s, open, i);
        if f >= s.len() {
            seq![(false, s.subrange(i, s.len() as int))]
        } else if f == i {
            let g = find_from(s, close, i + open.len());
            if g >= s.len() {
                seq![(false, s.subrange(i, s.len() as int))]
            } else {
                let vend = g + close.len() - 1;
                seq![(true, s.subrange(i + open.len(), vend))] + spec_tokens(
                    s,
                    open,
                    close,
                    vend + 1,
                )
            }
        } else {
            seq![(false, s.subrange(i, f))] + spec_tokens(s, open, close, f)
        }
    }
}

#[via_fn]
proof fn spec_tokens_dec(s: Seq<char>, open: Seq<char>, close: Seq<char>, i: int) {
    if 0 <= i < s.len() {
        lemma_find_from(s, open, i);
        let f = find_from(s, open, i);
        if f == i && i + open.len() <= s.len() {
            lemma_find_from(s, close, i + open.len());
        }
    }
}

/// The variables among the tokens, in order.
pub open spec fn spec_vars(v: Seq<(bool, Seq<char>)>) -> Seq<Seq<char>>
    decreases v.len(),
{
    if v.len() == 0 {
        seq![]
    } else {
        let rest = spec_vars(v.drop_first());
        if v[0].0 {
            seq![v[0].1] + rest
        } else {
            rest
        }
    }
}

/// A token of a template, carrying its text: a literal run, or the name
/// of a variable to substitute.
#[derive(Debug, Clone)]
pub enum TemplatePart {
    Lit(String),
    Var(String),
}

/// The text a part denotes, marked `true` when it is a variable.
pub open spec fn part_view(p: TemplatePart) -> (bool, Seq<char>) {
    match p {
        TemplatePart::Lit(s) => (false, s@),
        TemplatePart::Var(s) => (true, s@),
    }
}

/// A parsed file-name template.
#[derive(Debug)]
pub struct Template {
    template: Vec<char>,
    tokens: Vec<Token>,
}

impl View for Template {
    type V = Seq<(bool, Seq<char>)>;

    closed spec fn view(&self) -> Seq<(bool, Seq<char>)> {
        let s = self.template@;
        self.tokens@.map_values(
            |t: Token|
                match t {
                    Token::Lit(a, b) => token_view(s, a as int, b as int, false),
                    Token::Var(a, b) => token_view(s, a as int, b as int, true),
                },
        )
    }
}

impl Template {
    #[verifier::type_invariant]
    closed spec fn wf(self) -> bool {
        forall|k: int|
            0 <= k < self.tokens@.len() ==> match #[trigger] self.tokens@[k] {
                Token::Lit(a, b) => a <= b <= self.template@.len(),
                Token::Var(a, b) => a <= b <= self.template@.len(),
            }
    }

    /// Scans `template`, with variables bracketed by `open` and `close`.
    #[verifier::loop_isolation(false)]
    pub fn new(template: &str, open: &str, close: &str) -> (r: Template)
        requires
            open@.len() > 0,
            close@.len() > 0,
        ensures
            r@ == spec_tokens(template@, open@, close@, 0),
    {
        let s = chars_of_str(template);
        let o = chars_of_str(open);
        let c = chars_of_str(close);
        let ghost sv = s@;
        let mut tokens: Vec<Token> = Vec::new();
        let ghost target = spec_tokens(sv, open@, close@, 0);
        let mut i: usize = 0;
        let mut done = false;
        proof {
            assert(views_of(sv, tokens@) =~= Seq::<(bool, Seq<char>)>::empty());
            assert(Seq::<(bool, Seq<char>)>::empty() + spec_tokens(sv, open@, close@, 0)
                =~= spec_tokens(sv, open@, close@, 0));
        }
        while !done && i < s.len()
            invariant
                0 <= i <= sv.len(),
                target == views_of(sv, tokens@) + (if done {
                    Seq::<(bool, Seq<char>)>::empty()
                } else {
                    spec_tokens(sv, open@, close@, i as int)
                }),
                forall|k: int|
                    0 <= k < tokens@.len() ==> match #[trigger] tokens@[k] {
                        Token::Lit(a, b) => a <= b <= sv.len(),
                        Token::Var(a, b) => a <= b <= sv.len(),
                    },
            decreases sv.len() - i, (if done {
                0int
            } else {
                1int
            }),
        {
            proof {
                lemma_find_from(sv, open@, i as int);
            }
            let ghost pre = views_of(sv, tokens@);
            let f = find_sub(&s, &o, i);
            if f >= s.len() {
                tokens.push(Token::Lit(i, s.len()));
                proof {
                    assert(views_of(sv, tokens@) =~= pre.push((false, sv.subrange(i as int, sv.len() as int))));
                    assert(views_of(sv, tokens@) + Seq::<(bool, Seq<char>)>::empty() =~= pre + spec_tokens(sv, open@, close@, i as int));
                }
                done = true;
            } else if f == i {
                proof {
                    if i + o@.len() <= sv.len() {
                        lemma_find_from(sv, close@, i + o@.len());
                    }
                }
                let g = if i + o.len() <= s.len() {
                    find_sub(&s, &c, i + o.len())
                } else {
                    s.len()
                };
                proof {
                    if i + o@.len() > sv.len() {
                        assert(find_from(sv, close@, i + o@.len()) == sv.len());
                    }
                }
                if g >= s.len() {
                    tokens.push(Token::Lit(i, s.len()));
                    proof {
                        assert(views_of(sv, tokens@) =~= pre.push((false, sv.subrange(i as int, sv.len() as int))));
                        assert(views_of(sv, tokens@) + Seq::<(bool, Seq<char>)>::empty() =~= pre + spec_tokens(sv, open@, close@, i as int));
                    }
                    done = true;
                } else {
                    let vend = g + c.len() - 1;
                    tokens.push(Token::Var(i + o.len(), vend));
                    proof {
                        assert(is_match_at(sv, close@, g as int));
                        assert(views_of(sv, tokens@) =~= pre.push((true, sv.subrange(i + o@.len(), vend as int))));
                        assert(views_of(sv, tokens@) + spec_tokens(sv, open@, close@, vend + 1)
                            =~= pre + spec_tokens(sv, open@, close@, i as int));
                    }
                    i = vend + 1;
                }
            } else {
                tokens.push(Token::Lit(i, f));
                proof {
                    assert(views_of(sv, tokens@) =~= pre.push((false, sv.subrange(i as int, f as int))));
                    assert(views_of(sv, tokens@) + spec_tokens(sv, open@, close@, f as int) =~= pre
                        + spec_tokens(sv, open@, close@, i as int));
                }
                i = f;
            }
        }
        proof {
            if !done {
                assert(spec_tokens(sv, open@, close@, i as int) =~= Seq::<
                    (bool, Seq<char>),
                >::empty());
            }
            assert(views_of(sv, tokens@) + Seq::<(bool, Seq<char>)>::empty() =~= views_of(
                sv,
                tokens@,
            ));
        }
        let r = Template { template: s, tokens };
        proof {
            assert(r@ =~= views_of(sv, r.tokens@));
        }
        r
    }

    /// The names of the variables the template mentions, in order.
    pub fn vars(&self) -> (r: Vec<String>)
        ensures
            r@.map_values(|v: String| v@) == spec_vars(self@),
    {
        proof {
            use_type_invariant(self);
        }
        let ghost view = self@;
        let mut r: Vec<String> = Vec::new();
        let mut i: usize = 0;
        proof {
            assert(view.skip(0) =~= view);
            assert(r@.map_values(|v: String| v@) =~= Seq::<Seq<char>>::empty());
        }
        while i < self.tokens.len()
            invariant
                0 <= i <= self.tokens@.len(),
                view == self@,
                self.wf(),
                spec_vars(view) == r@.map_values(|v: String| v@) + spec_vars(
                    view.skip(i as int),
                ),
            decreases self.tokens@.len() - i,
        {
            let ghost pre = r@.map_values(|v: String| v@);
            proof {
                assert(view.skip(i as int)[0] == view[i as int]);
                assert(view.skip(i as int).drop_first() =~= view.skip(i + 1));
            }
            match self.tokens[i] {
                Token::Var(a, b) => {
                    let text = subvec(&self.template, a, b);
                    r.push(chars_to_string(&text));
                    proof {
                        assert(r@.map_values(|v: String| v@) =~= pre.push(view[i as int].1));
                        assert(pre.push(view[i as int].1) + spec_vars(view.skip(i + 1)) =~= pre + (
                        seq![view[i as int].1] + spec_vars(view.skip(i + 1))));
                    }
                },
                Token::Lit(_, _) => {},
            }
            i = i + 1;
        }
        proof {
            assert(view.skip(view.len() as int) =~= Seq::<(bool, Seq<char>)>::empty());
        }
        r
    }

    /// Whether the template mentions the variable `var`.
    pub fn contains_var(&self, var: &str) -> (r: bool)
        ensures
            r == exists|i: int|
                0 <= i < self@.len() && (#[trigger] self@[i]).0 && self@[i].1 == var@,
    {
        proof {
            use_type_invariant(self);
        }
        let v = chars_of_str(var);
        let mut i: usize = 0;
        while i < self.tokens.len()
            invariant
                0 <= i <= self.tokens@.len(),
                self.wf(),
                v@ == var@,
                forall|j: int| 0 <= j < i ==> !((#[trigger] self@[j]).0 && self@[j].1 == var@),
            decreases self.tokens@.len() - i,
        {
            match self.tokens[i] {
                Token::Var(a, b) => {
                    let text = subvec(&self.template, a, b);
                    if vec_char_eq(&text, &v) {
                        proof {
                            assert((self@[i as int]).0 && self@[i as int].1 == var@);
                        }
                        return true;
                    }
                },
                Token::Lit(_, _) => {},
            }
            i = i + 1;
        }
        false
    }

    /// The tokens of the template with their text, for expansion by the
    /// caller.
    pub fn parts(&self) -> (r: Vec<TemplatePart>)
        ensures
            r@.map_values(|p: TemplatePart| part_view(p)) == self@,
    {
        proof {
            use_type_invariant(self);
        }
        let ghost view = self@;
        let mut r: Vec<TemplatePart> = Vec::new();
        let mut i: usize = 0;
        while i < self.tokens.len()
            invariant
                0 <= i <= self.tokens@.len(),
                view == self@,
                self.wf(),
                r@.map_values(|p: TemplatePart| part_view(p)) == view.take(i as int),
            decreases self.tokens@.len() - i,
        {
            let ghost pre = r@.map_values(|p: TemplatePart| part_view(p));
            match self.tokens[i] {
                Token::Var(a, b) => {
                    let text = subvec(&self.template, a, b);
                    r.push(TemplatePart::Var(chars_to_string(&text)));
                },
                Token::Lit(a, b) => {
                    let text = subvec(&self.template, a, b);
                    r.push(TemplatePart::Lit(chars_to_string(&text)));
                },
            }
            proof {
                assert(r@.map_values(|p: TemplatePart| part_view(p)) =~= pre.push(
                    view[i as int],
                ));
                assert(pre.push(view[i as int]) =~= view.take(i + 1));
            }
            i = i + 1;
        }
        proof {
            assert(view.take(view.len() as int) =~= view);
        }
        r
    }
}

/// The texts a token list denotes within template text `s`.
spec fn views_of(s: Seq<char>, toks: Seq<Token>) -> Seq<(bool, Seq<char>)> {
    toks.map_values(
        |t: Token|
            match t {
                Token::Lit(a, b) => token_view(s, a as int, b as int, false),
                Token::Var(a, b) => token_view(s, a as int, b as int, true),
            },
    )
}

} // verus!
