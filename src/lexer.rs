use vstd::prelude::*;
use vstd::string::*;
use crate::text::{chars_of, is_digit};
use crate::token::{Token, TokenMatch, Lexeme};
use crate::ast::line_view;

verus! {

/// The number of token patterns.
pub const PATTERNS: usize = 17;

/// The token patterns in the order they are applied: by ascending priority
/// value, so that quoted literals claim text before numbers, and numbers
/// before keywords and the terminator.
pub open spec fn pattern(k: int) -> Token {
    if k == 0 {
        Token::Literal
    } else if k == 1 {
        Token::Float
    } else if k == 2 {
        Token::Integer
    } else if k == 3 {
        Token::ENDL
    } else if k == 4 {
        Token::Query
    } else if k == 5 {
        Token::Delete
    } else if k == 6 {
        Token::Select
    } else if k == 7 {
        Token::Value
    } else if k == 8 {
        Token::From
    } else if k == 9 {
        Token::Create
    } else if k == 10 {
        Token::Template
    } else if k == 11 {
        Token::Instance
    } else if k == 12 {
        Token::SetField
    } else if k == 13 {
        Token::End
    } else if k == 14 {
        Token::StringType
    } else if k == 15 {
        Token::IntegerType
    } else {
        Token::FloatType
    }
}

/// The priority of a token's pattern.
pub open spec fn priority_of(t: Token) -> u8 {
    match t {
        Token::Literal => 1,
        Token::Float => 2,
        Token::Integer => 3,
        _ => 4,
    }
}

/// The fixed text of a keyword or of the terminator.
pub open spec fn keyword(t: Token) -> Seq<char> {
    match t {
        Token::ENDL => seq![';'],
        Token::Query => seq!['Q', 'U', 'E', 'R', 'Y'],
        Token::Delete => seq!['D', 'E', 'L', 'E', 'T', 'E'],
        Token::Select => seq!['S', 'E', 'L', 'E', 'C', 'T'],
        Token::Value => seq!['V', 'A', 'L', 'U', 'E'],
        Token::From => seq!['F', 'R', 'O', 'M'],
        Token::Create => seq!['C', 'R', 'E', 'A', 'T', 'E'],
        Token::Template => seq!['T', 'E', 'M', 'P', 'L', 'A', 'T', 'E'],
        Token::Instance => seq!['I', 'N', 'S', 'T', 'A', 'N', 'C', 'E'],
        Token::SetField => seq!['S', 'E', 'T'],
        Token::End => seq!['E', 'N', 'D'],
        Token::StringType => seq!['S', 'T', 'R', 'I', 'N', 'G'],
        Token::IntegerType => seq!['I', 'N', 'T', 'E', 'G', 'E', 'R'],
        Token::FloatType => seq!['F', 'L', 'O', 'A', 'T'],
        _ => Seq::empty(),
    }
}

/// The end of the run of digits that starts at `p`.
pub open spec fn digits_end(c: Seq<char>, p: int) -> int
    decreases c.len() - p,
{
    if 0 <= p < c.len() && is_digit(c[p]) {
        digits_end(c, p + 1)
    } else {
        p
    }
}

/// The end of a quoted literal whose body starts at `i`: just past the first
/// unescaped quote, where a backslash escapes any character but a newline;
/// -1 where the literal does not close.
pub open spec fn literal_end(c: Seq<char>, i: int) -> int
    decreases c.len() - i,
{
    if i < 0 || i >= c.len() {
        -1
    } else if c[i] == '"' {
        i + 1
    } else if c[i] == '\\' {
        if i + 1 < c.len() && c[i + 1] != '\n' {
            literal_end(c, i + 2)
        } else {
            -1
        }
    } else {
        literal_end(c, i + 1)
    }
}

/// The end of the match of `t`'s pattern that starts at `p`, or -1: a quoted
/// literal, digits '.' digits, digits, or the keyword's text.
pub open spec fn match_end(t: Token, c: Seq<char>, p: int) -> int {
    match t {
        Token::Literal => if c[p] == '"' {
            literal_end(c, p + 1)
        } else {
            -1
        },
        Token::Float => {
            let q = digits_end(c, p);
            if q > p && q < c.len() && c[q] == '.' && digits_end(c, q + 1) > q + 1 {
                digits_end(c, q + 1)
            } else {
                -1
            }
        },
        Token::Integer => {
            let q = digits_end(c, p);
            if q > p {
                q
            } else {
                -1
            }
        },
        _ => {
            let w = keyword(t);
            if p + w.len() <= c.len() && c.subrange(p, p + w.len()) == w {
                p + w.len()
            } else {
                -1
            }
        },
    }
}

/// The matches of `t`'s pattern from `p` on, leftmost first and not
/// overlapping: after a match the search goes on at its end.
pub open spec fn scan(t: Token, c: Seq<char>, p: int) -> Seq<(int, int)>
    decreases c.len() - p,
{
    if p < 0 || p >= c.len() {
        Seq::empty()
    } else {
        let e = match_end(t, c, p);
        if p < e <= c.len() {
            seq![(p, e)] + scan(t, c, e)
        } else {
            scan(t, c, p + 1)
        }
    }
}

/// No character of `[s, e)` is claimed yet.
pub open spec fn free(claimed: Seq<bool>, s: int, e: int) -> bool {
    forall|i: int| s <= i < e ==> !claimed[i]
}

/// The spans that overlap no claimed character.
pub open spec fn unclaimed(claimed: Seq<bool>, spans: Seq<(int, int)>) -> Seq<(int, int)> {
    spans.filter(|sp: (int, int)| free(claimed, sp.0, sp.1))
}

/// The claims after the spans are taken.
pub open spec fn claim(claimed: Seq<bool>, spans: Seq<(int, int)>) -> Seq<bool>
    decreases spans.len(),
{
    if spans.len() == 0 {
        claimed
    } else {
        let m = claim(claimed, spans.drop_last());
        let sp = spans.last();
        Seq::new(m.len(), |i: int| m[i] || (sp.0 <= i < sp.1))
    }
}

/// The token starting at each offset, after the spans are placed as `t`.
pub open spec fn place(slots: Seq<Option<(Token, int)>>, spans: Seq<(int, int)>, t: Token) -> Seq<
    Option<(Token, int)>,
>
    decreases spans.len(),
{
    if spans.len() == 0 {
        slots
    } else {
        let sp = spans.last();
        place(slots, spans.drop_last(), t).update(sp.0, Some((t, sp.1)))
    }
}

/// The claimed characters and the token starting at each offset after the
/// first `k` patterns: each pattern keeps those of its matches that overlap
/// nothing an earlier pattern kept.
pub open spec fn lex_state(c: Seq<char>, k: nat) -> (Seq<bool>, Seq<Option<(Token, int)>>)
    decreases k,
{
    if k == 0 {
        (Seq::new(c.len(), |i: int| false), Seq::new(c.len(), |i: int| None))
    } else {
        let (claimed, slots) = lex_state(c, (k - 1) as nat);
        let t = pattern(k - 1);
        let kept = unclaimed(claimed, scan(t, c, 0));
        (claim(claimed, kept), place(slots, kept, t))
    }
}

/// The token of kind `t` spanning `[s, e)`; a literal's value is its text
/// without the quotes.
pub open spec fn lexeme_at(c: Seq<char>, t: Token, s: int, e: int) -> Lexeme {
    Lexeme {
        token: t,
        value: if t == Token::Literal {
            c.subrange(s + 1, e - 1)
        } else {
            c.subrange(s, e)
        },
        start: s as usize,
        end: e as usize,
        priority: priority_of(t),
    }
}

/// The tokens that start before offset `p`, ordered by start.
pub open spec fn tokens_upto(c: Seq<char>, slots: Seq<Option<(Token, int)>>, p: int) -> Seq<Lexeme>
    decreases p,
{
    if p <= 0 {
        Seq::empty()
    } else {
        let prev = tokens_upto(c, slots, p - 1);
        match slots[p - 1] {
            Some((t, e)) => prev.push(lexeme_at(c, t, p - 1, e)),
            None => prev,
        }
    }
}

/// The tokens split into lines at each terminator, which is dropped.
pub open spec fn split_lines(ts: Seq<Lexeme>) -> Seq<Seq<Lexeme>>
    decreases ts.len(),
{
    if ts.len() == 0 {
        seq![Seq::empty()]
    } else {
        let prev = split_lines(ts.drop_last());
        if ts.last().token == Token::ENDL {
            prev.push(Seq::empty())
        } else {
            prev.update(prev.len() - 1, prev.last().push(ts.last()))
        }
    }
}

/// The lines of a source text; an empty last line is dropped.
pub open spec fn lex(c: Seq<char>) -> Seq<Seq<Lexeme>> {
    let slots = lex_state(c, PATTERNS as nat).1;
    let lines = split_lines(tokens_upto(c, slots, c.len() as int));
    if lines.last().len() == 0 {
        lines.drop_last()
    } else {
        lines
    }
}

pub open spec fn spans_view(v: Seq<(usize, usize)>) -> Seq<(int, int)> {
    v.map_values(|x: (usize, usize)| (x.0 as int, x.1 as int))
}

pub open spec fn slots_view(v: Seq<Option<(Token, usize)>>) -> Seq<Option<(Token, int)>> {
    v.map_values(
        |o: Option<(Token, usize)>|
            match o {
                Some((t, e)) => Some((t, e as int)),
                None => None,
            },
    )
}

/// Spans inside a text of `n` characters, each non-empty; a literal's span
/// also holds its two quotes.
pub open spec fn spans_ok(v: Seq<(usize, usize)>, n: int, t: Token) -> bool {
    forall|j: int|
        0 <= j < v.len() ==> #[trigger] v[j].0 < v[j].1 <= n && (t == Token::Literal ==> v[j].1
            >= v[j].0 + 2)
}

pub open spec fn slots_ok(v: Seq<Option<(Token, usize)>>, n: int) -> bool {
    forall|i: int|
        0 <= i < v.len() ==> match #[trigger] v[i] {
            Some((t, e)) => i < e <= n && (t == Token::Literal ==> e >= i + 2),
            None => true,
        }
}

fn keyword_chars(t: Token) -> (v: Vec<char>)
    ensures
        v@ == keyword(t),
{
    let v = match t {
        Token::ENDL => vec![';'],
        Token::Query => vec!['Q', 'U', 'E', 'R', 'Y'],
        Token::Delete => vec!['D', 'E', 'L', 'E', 'T', 'E'],
        Token::Select => vec!['S', 'E', 'L', 'E', 'C', 'T'],
        Token::Value => vec!['V', 'A', 'L', 'U', 'E'],
        Token::From => vec!['F', 'R', 'O', 'M'],
        Token::Create => vec!['C', 'R', 'E', 'A', 'T', 'E'],
        Token::Template => vec!['T', 'E', 'M', 'P', 'L', 'A', 'T', 'E'],
        Token::Instance => vec!['I', 'N', 'S', 'T', 'A', 'N', 'C', 'E'],
        Token::SetField => vec!['S', 'E', 'T'],
        Token::End => vec!['E', 'N', 'D'],
        Token::StringType => vec!['S', 'T', 'R', 'I', 'N', 'G'],
        Token::IntegerType => vec!['I', 'N', 'T', 'E', 'G', 'E', 'R'],
        Token::FloatType => vec!['F', 'L', 'O', 'A', 'T'],
        _ => Vec::new(),
    };
    assert(v@ =~= keyword(t));
    v
}

fn digits_to(c: &Vec<char>, p: usize) -> (r: usize)
    requires
        p <= c.len(),
    ensures
        r as int == digits_end(c@, p as int),
        p <= r <= c.len(),
{
    let mut q = p;
    while q < c.len() && '0' <= c[q] && c[q] <= '9'
        invariant
            p <= q <= c.len(),
            digits_end(c@, p as int) == digits_end(c@, q as int),
        decreases c.len() - q,
    {
        q = q + 1;
    }
    q
}

fn literal_close(c: &Vec<char>, i: usize) -> (r: Option<usize>)
    requires
        i <= c.len(),
    ensures
        match r {
            Some(e) => e as int == literal_end(c@, i as int) && i < e <= c.len(),
            None => literal_end(c@, i as int) == -1,
        },
{
    let mut j = i;
    while j < c.len()
        invariant
            i <= j <= c.len(),
            literal_end(c@, i as int) == literal_end(c@, j as int),
        decreases c.len() - j,
    {
        if c[j] == '"' {
            return Some(j + 1);
        } else if c[j] == '\\' {
            if j + 1 < c.len() && c[j + 1] != '\n' {
                j = j + 2;
            } else {
                return None;
            }
        } else {
            j = j + 1;
        }
    }
    None
}

/// A token pattern and its priority.
#[derive(Debug, Clone, Copy)]
pub struct TokenDefinition {
    pub token: Token,
    pub priority: u8,
}

impl TokenDefinition {
    /// The pattern of `token`, with the given priority.
    pub fn new(token: Token, priority: u8) -> (r: Self)
        ensures
            r.token == token,
            r.priority == priority,
    {
        Self { token, priority }
    }

    fn match_at(&self, c: &Vec<char>, p: usize) -> (r: Option<usize>)
        requires
            p < c.len(),
        ensures
            match r {
                Some(e) => e as int == match_end(self.token, c@, p as int) && p < e <= c.len() && (
                self.token == Token::Literal ==> e >= p + 2),
                None => !(p < match_end(self.token, c@, p as int) <= c.len()),
            },
    {
        match self.token {
            Token::Literal => {
                if c[p] == '"' {
                    literal_close(c, p + 1)
                } else {
                    None
                }
            },
            Token::Float => {
                let q = digits_to(c, p);
                if q > p && q < c.len() && c[q] == '.' {
                    let r = digits_to(c, q + 1);
                    if r > q + 1 {
                        Some(r)
                    } else {
                        None
                    }
                } else {
                    None
                }
            },
            Token::Integer => {
                let q = digits_to(c, p);
                if q > p {
                    Some(q)
                } else {
                    None
                }
            },
            _ => {
                let w = keyword_chars(self.token);
                if w.len() == 0 || w.len() > c.len() - p {
                    return None;
                }
                let mut j: usize = 0;
                while j < w.len()
                    invariant
                        w@ == keyword(self.token),
                        p + w.len() <= c.len(),
                        j <= w.len(),
                        forall|m: int| 0 <= m < j ==> c@[p + m] == w@[m],
                    decreases w.len() - j,
                {
                    if c[p + j] != w[j] {
                        assert(c@.subrange(p as int, p + w.len())[j as int] != w@[j as int]);
                        return None;
                    }
                    j = j + 1;
                }
                assert(c@.subrange(p as int, p + w.len()) =~= w@);
                Some(p + w.len())
            },
        }
    }

    /// All matches of the pattern in the text, leftmost first.
    fn scan_text(&self, c: &Vec<char>) -> (r: Vec<(usize, usize)>)
        ensures
            spans_view(r@) == scan(self.token, c@, 0),
            spans_ok(r@, c.len() as int, self.token),
    {
        let mut out: Vec<(usize, usize)> = Vec::new();
        let mut p: usize = 0;
        while p < c.len()
            invariant
                p <= c.len(),
                spans_view(out@) + scan(self.token, c@, p as int) == scan(self.token, c@, 0),
                spans_ok(out@, c.len() as int, self.token),
            decreases c.len() - p,
        {
            match self.match_at(c, p) {
                Some(e) => {
                    let ghost prev = out@;
                    out.push((p, e));
                    assert(spans_view(out@) =~= spans_view(prev).push((p as int, e as int)));
                    assert(spans_view(out@) + scan(self.token, c@, e as int) =~= spans_view(prev) + (
                    seq![(p as int, e as int)] + scan(self.token, c@, e as int)));
                    p = e;
                },
                None => {
                    p = p + 1;
                },
            }
        }
        assert(spans_view(out@) + scan(self.token, c@, p as int) =~= spans_view(out@));
        out
    }

    /// Matches the pattern over the text and keeps the matches that overlap
    /// nothing claimed before: they are claimed and placed at their start.
    pub fn match_text(
        &self,
        c: &Vec<char>,
        claimed: &mut Vec<bool>,
        slots: &mut Vec<Option<(Token, usize)>>,
    )
        requires
            old(claimed).len() == c.len(),
            old(slots).len() == c.len(),
            slots_ok(old(slots)@, c.len() as int),
        ensures
            final(claimed).len() == c.len(),
            final(slots).len() == c.len(),
            slots_ok(final(slots)@, c.len() as int),
            ({
                let kept = unclaimed(old(claimed)@, scan(self.token, c@, 0));
                &&& final(claimed)@ == claim(old(claimed)@, kept)
                &&& slots_view(final(slots)@) == place(slots_view(old(slots)@), kept, self.token)
            }),
    {
        let cands = self.scan_text(c);
        let ghost cv = spans_view(cands@);
        let ghost pred = |sp: (int, int)| free(claimed@, sp.0, sp.1);
        let mut kept: Vec<(usize, usize)> = Vec::new();
        let mut j: usize = 0;
        while j < cands.len()
            invariant
                cv == spans_view(cands@),
                pred == (|sp: (int, int)| free(claimed@, sp.0, sp.1)),
                claimed.len() == c.len(),
                spans_ok(cands@, c.len() as int, self.token),
                spans_ok(kept@, c.len() as int, self.token),
                j <= cands.len(),
                spans_view(kept@) == cv.take(j as int).filter(pred),
            decreases cands.len() - j,
        {
            let (s, e) = cands[j];
            let mut i = s;
            let mut open = true;
            while i < e
                invariant
                    s <= i <= e <= c.len(),
                    claimed.len() == c.len(),
                    open == free(claimed@, s as int, i as int),
                decreases e - i,
            {
                if claimed[i] {
                    open = false;
                }
                i = i + 1;
            }
            proof {
                cv.take(j as int).lemma_filter_push(cv[j as int], pred);
                assert(cv.take(j + 1) =~= cv.take(j as int).push(cv[j as int]));
            }
            let ghost prev = kept@;
            if open {
                kept.push((s, e));
                assert(spans_view(kept@) =~= spans_view(prev).push(cv[j as int]));
            }
            j = j + 1;
        }
        assert(cv.take(cv.len() as int) =~= cv);
        let ghost kv = spans_view(kept@);
        let ghost claimed0 = claimed@;
        let ghost slots0 = slots_view(slots@);
        let mut j: usize = 0;
        while j < kept.len()
            invariant
                kv == spans_view(kept@),
                spans_ok(kept@, c.len() as int, self.token),
                claimed.len() == c.len(),
                slots.len() == c.len(),
                slots_ok(slots@, c.len() as int),
                j <= kept.len(),
                claimed@ == claim(claimed0, kv.take(j as int)),
                slots_view(slots@) == place(slots0, kv.take(j as int), self.token),
            decreases kept.len() - j,
        {
            let (s, e) = kept[j];
            assert(kv.take(j + 1).drop_last() =~= kv.take(j as int));
            let ghost before = claimed@;
            let mut i = s;
            while i < e
                invariant
                    s <= i <= e <= c.len(),
                    claimed.len() == c.len(),
                    claimed@ =~= Seq::new(c.len() as nat, |x: int| before[x] || (s <= x < i)),
                    before.len() == c.len(),
                decreases e - i,
            {
                claimed.set(i, true);
                i = i + 1;
            }
            let ghost sv = slots@;
            slots.set(s, Some((self.token, e)));
            assert(slots_view(slots@) =~= slots_view(sv).update(s as int, Some((self.token, e as int))));
            j = j + 1;
        }
        assert(kv.take(kv.len() as int) =~= kv);
    }
}

/// The token patterns in the order they are applied, ascending by priority.
pub fn initialize() -> (defs: Vec<TokenDefinition>)
    ensures
        defs.len() == PATTERNS,
        forall|k: int|
            0 <= k < PATTERNS ==> #[trigger] defs@[k].token == pattern(k) && defs@[k].priority
                == priority_of(pattern(k)),
{
    let mut defs: Vec<TokenDefinition> = Vec::with_capacity(PATTERNS);
    defs.push(TokenDefinition::new(Token::Literal, 1));
    defs.push(TokenDefinition::new(Token::Float, 2));
    defs.push(TokenDefinition::new(Token::Integer, 3));
    defs.push(TokenDefinition::new(Token::ENDL, 4));
    defs.push(TokenDefinition::new(Token::Query, 4));
    defs.push(TokenDefinition::new(Token::Delete, 4));
    defs.push(TokenDefinition::new(Token::Select, 4));
    defs.push(TokenDefinition::new(Token::Value, 4));
    defs.push(TokenDefinition::new(Token::From, 4));
    defs.push(TokenDefinition::new(Token::Create, 4));
    defs.push(TokenDefinition::new(Token::Template, 4));
    defs.push(TokenDefinition::new(Token::Instance, 4));
    defs.push(TokenDefinition::new(Token::SetField, 4));
    defs.push(TokenDefinition::new(Token::End, 4));
    defs.push(TokenDefinition::new(Token::StringType, 4));
    defs.push(TokenDefinition::new(Token::IntegerType, 4));
    defs.push(TokenDefinition::new(Token::FloatType, 4));
    defs
}

/// Splits a source text into lines of tokens: every pattern is matched over
/// the whole text in priority order, a match that overlaps one kept earlier
/// is dropped, the kept tokens are ordered by start and split at each
/// terminator, and quotes are stripped from literals. An empty last line is
/// dropped. Offsets count characters.
pub fn parse(source: String) -> (r: Vec<Vec<TokenMatch>>)
    ensures
        r@.map_values(|l: Vec<TokenMatch>| line_view(l)) == lex(source@),
{
    let c = chars_of(source.as_str());
    let n = c.len();
    let defs = initialize();
    let mut claimed: Vec<bool> = Vec::new();
    let mut slots: Vec<Option<(Token, usize)>> = Vec::new();
    let mut i: usize = 0;
    while i < n
        invariant
            n == c.len(),
            i <= n,
            claimed@ =~= Seq::new(i as nat, |x: int| false),
            slots_view(slots@) =~= Seq::new(i as nat, |x: int| None::<(Token, int)>),
            slots.len() == i,
            slots_ok(slots@, n as int),
        decreases n - i,
    {
        claimed.push(false);
        let ghost prev = slots@;
        slots.push(None);
        assert(slots_view(slots@) =~= slots_view(prev).push(None));
        i = i + 1;
    }
    let mut k: usize = 0;
    while k < PATTERNS
        invariant
            n == c.len(),
            c@ == source@,
            defs.len() == PATTERNS,
            forall|m: int| 0 <= m < PATTERNS ==> #[trigger] defs@[m].token == pattern(m),
            k <= PATTERNS,
            claimed.len() == n,
            slots.len() == n,
            slots_ok(slots@, n as int),
            (claimed@, slots_view(slots@)) == lex_state(c@, k as nat),
        decreases PATTERNS - k,
    {
        defs[k].match_text(&c, &mut claimed, &mut slots);
        k = k + 1;
    }
    let ghost sl = slots_view(slots@);
    let mut lines: Vec<Vec<TokenMatch>> = Vec::new();
    let mut cur: Vec<TokenMatch> = Vec::new();
    let mut p: usize = 0;
    assert(line_view(cur) =~= Seq::<Lexeme>::empty());
    assert(tokens_upto(c@, sl, 0) =~= Seq::<Lexeme>::empty());
    assert(lines@.map_values(|l: Vec<TokenMatch>| line_view(l)).push(line_view(cur)) =~= split_lines(
        tokens_upto(c@, sl, 0),
    ));
    while p < n
        invariant
            n == c.len(),
            c@ == source@,
            slots.len() == n,
            slots_ok(slots@, n as int),
            sl == slots_view(slots@),
            p <= n,
            lines@.map_values(|l: Vec<TokenMatch>| line_view(l)).push(line_view(cur)) == split_lines(
                tokens_upto(c@, sl, p as int),
            ),
        decreases n - p,
    {
        match slots[p] {
            Some((t, e)) => {
                let ghost ts = tokens_upto(c@, sl, p as int);
                let ghost lx = lexeme_at(c@, t, p as int, e as int);
                assert(sl[p as int] == Some((t, e as int)));
                assert(tokens_upto(c@, sl, p + 1) == ts.push(lx));
                assert(ts.push(lx).drop_last() =~= ts);
                let ghost done = lines@.map_values(|l: Vec<TokenMatch>| line_view(l));
                if t == Token::ENDL {
                    lines.push(cur);
                    cur = Vec::new();
                    assert(lines@.map_values(|l: Vec<TokenMatch>| line_view(l)) =~= done.push(
                        split_lines(ts).last(),
                    ));
                    assert(line_view(cur) =~= Seq::<Lexeme>::empty());
                } else {
                    let value = if t == Token::Literal {
                        String::from_str(source.as_str().substring_char(p + 1, e - 1))
                    } else {
                        String::from_str(source.as_str().substring_char(p, e))
                    };
                    let ghost old_cur = cur@;
                    let tm = TokenMatch { token: t, value, start: p, end: e, priority: priority_for(t) };
                    assert(tm@ == lx);
                    cur.push(tm);
                    assert(line_view(cur) =~= old_cur.map_values(|x: TokenMatch| x@).push(lx));
                    assert(split_lines(ts.push(lx)) =~= done.push(line_view(cur)));
                }
            },
            None => {
                assert(sl[p as int] == None::<(Token, int)>);
            },
        }
        p = p + 1;
    }
    let ghost all = split_lines(tokens_upto(c@, sl, n as int));
    assert(all.last() == line_view(cur));
    if cur.len() > 0 {
        lines.push(cur);
        assert(lines@.map_values(|l: Vec<TokenMatch>| line_view(l)) =~= all);
    } else {
        assert(lines@.map_values(|l: Vec<TokenMatch>| line_view(l)) =~= all.drop_last());
    }
    lines
}

fn priority_for(t: Token) -> (p: u8)
    ensures
        p == priority_of(t),
{
    match t {
        Token::Literal => 1,
        Token::Float => 2,
        Token::Integer => 3,
        _ => 4,
    }
}

} // verus!
