//! Textual addresses of nodes in the runtime graph.
//!
//! A path is an ordered sequence of fragments, each either a non-negative
//! index or a name, plus a flag saying whether the path is relative. The
//! textual form joins the fragments with `.`; a relative path carries one
//! extra leading `.`. A token that is a decimal integer parses as an index;
//! any other token, including the empty one, parses as a name.

use vstd::prelude::*;

verus! {

// ---------------------------------------------------------------------------
// Mathematical model
// ---------------------------------------------------------------------------

/// A fragment as the specifications see it.
pub enum FragmentM {
    Index(int),
    Name(Seq<char>),
}

/// A path as the specifications see it.
pub struct PathM {
    pub is_relative: bool,
    pub fragments: Seq<FragmentM>,
}

pub open spec fn is_digit(c: char) -> bool {
    48 <= c as u32 && c as u32 <= 57
}

pub open spec fn digit_val(c: char) -> int {
    c as u32 - 48
}

pub open spec fn digit_char(d: int) -> char {
    if d == 0 {
        '0'
    } else if d == 1 {
        '1'
    } else if d == 2 {
        '2'
    } else if d == 3 {
        '3'
    } else if d == 4 {
        '4'
    } else if d == 5 {
        '5'
    } else if d == 6 {
        '6'
    } else if d == 7 {
        '7'
    } else if d == 8 {
        '8'
    } else {
        '9'
    }
}

/// Value of a sequence of decimal digits, most significant first.
pub open spec fn digits_val(s: Seq<char>) -> int
    decreases s.len(),
{
    if s.len() == 0 {
        0
    } else {
        digits_val(s.drop_last()) * 10 + digit_val(s.last())
    }
}

pub open spec fn all_digits(s: Seq<char>) -> bool {
    forall|i: int| 0 <= i < s.len() ==> is_digit(s[i])
}

/// A token stands for an index when it is all digits and its value fits a
/// `usize`; every other token stands for a name.
pub open spec fn token_is_index(t: Seq<char>) -> bool {
    t.len() > 0 && all_digits(t) && digits_val(t) <= usize::MAX as int
}

pub open spec fn frag_of_token(t: Seq<char>) -> FragmentM {
    if token_is_index(t) {
        FragmentM::Index(digits_val(t))
    } else {
        FragmentM::Name(t)
    }
}

/// Position of the first `.` in `s`, or `s.len()` if there is none.
pub open spec fn first_dot(s: Seq<char>) -> int
    decreases s.len(),
{
    if s.len() == 0 {
        0
    } else if s[0] == '.' {
        0
    } else {
        1 + first_dot(s.skip(1))
    }
}

pub proof fn lemma_first_dot(s: Seq<char>)
    ensures
        0 <= first_dot(s) <= s.len(),
        first_dot(s) < s.len() ==> s[first_dot(s)] == '.',
        forall|j: int| 0 <= j < first_dot(s) ==> s[j] != '.',
    decreases s.len(),
{
    if s.len() != 0 && s[0] != '.' {
        let r = s.skip(1);
        lemma_first_dot(r);
        assert(forall|j: int| 1 <= j < first_dot(s) ==> s[j] == r[j - 1] && r[j - 1] != '.');
    }
}

/// A scan that finds no `.` before `i`, and a `.` at `i` unless `i` is the
/// end, has found the first dot.
pub proof fn lemma_first_dot_is(s: Seq<char>, i: int)
    requires
        0 <= i <= s.len(),
        forall|j: int| 0 <= j < i ==> s[j] != '.',
        i < s.len() ==> s[i] == '.',
    ensures
        first_dot(s) == i,
    decreases s.len(),
{
    if s.len() == 0 {
    } else if s[0] == '.' {
        assert(i == 0);
    } else {
        assert(i >= 1);
        let r = s.skip(1);
        assert(forall|j: int| 0 <= j < i - 1 ==> r[j] == s[j + 1] && s[j + 1] != '.');
        assert(i - 1 < r.len() ==> r[i - 1] == s[i]);
        lemma_first_dot_is(r, i - 1);
    }
}

/// The fragments denoted by a path body (the text after any leading
/// relative dot): tokens split on `.`, each classified by `frag_of_token`.
pub open spec fn parse_frags(s: Seq<char>) -> Seq<FragmentM>
    decreases s.len(),
{
    let i = first_dot(s);
    if 0 <= i && i < s.len() {
        seq![frag_of_token(s.take(i))] + parse_frags(s.skip(i + 1))
    } else {
        seq![frag_of_token(s)]
    }
}

/// What a path text denotes: `None` for the empty text; otherwise a
/// leading `.` marks the path relative and the remainder is split into
/// fragments.
pub open spec fn parse_path_text(s: Seq<char>) -> Option<PathM> {
    if s.len() == 0 {
        None
    } else {
        let rel = s[0] == '.';
        let body = if rel {
            s.skip(1)
        } else {
            s
        };
        Some(PathM { is_relative: rel, fragments: parse_frags(body) })
    }
}

/// Decimal text of a non-negative integer, without leading zeros.
pub open spec fn dec_str(n: int) -> Seq<char>
    decreases n,
{
    if n <= 0 {
        seq![digit_char(0)]
    } else if n < 10 {
        seq![digit_char(n)]
    } else {
        dec_str(n / 10).push(digit_char(n % 10))
    }
}

pub open spec fn frag_str(f: FragmentM) -> Seq<char> {
    match f {
        FragmentM::Index(n) => dec_str(n),
        FragmentM::Name(s) => s,
    }
}

/// Fragments joined with `.`.
pub open spec fn frags_str(fs: Seq<FragmentM>) -> Seq<char>
    decreases fs.len(),
{
    if fs.len() == 0 {
        Seq::empty()
    } else if fs.len() == 1 {
        frag_str(fs[0])
    } else {
        frag_str(fs[0]) + seq!['.'] + frags_str(fs.skip(1))
    }
}

/// Textual form of a path.
pub open spec fn path_str(p: PathM) -> Seq<char> {
    if p.is_relative {
        seq!['.'] + frags_str(p.fragments)
    } else {
        frags_str(p.fragments)
    }
}

// ---------------------------------------------------------------------------
// Well-formed path texts and the round-trip law
// ---------------------------------------------------------------------------

/// A token survives the round trip unless it is a decimal integer written
/// non-canonically (with leading zeros).
pub open spec fn wf_token(t: Seq<char>) -> bool {
    token_is_index(t) ==> (t.len() == 1 || t[0] != '0')
}

pub open spec fn wf_body(s: Seq<char>) -> bool
    decreases s.len(),
{
    let i = first_dot(s);
    if 0 <= i && i < s.len() {
        wf_token(s.take(i)) && wf_body(s.skip(i + 1))
    } else {
        wf_token(s)
    }
}

/// A well-formed path text: non-empty, and every index token canonical.
pub open spec fn wf_path_text(s: Seq<char>) -> bool {
    s.len() > 0 && wf_body(
        if s[0] == '.' {
            s.skip(1)
        } else {
            s
        },
    )
}

pub proof fn lemma_digits_val_nonneg(s: Seq<char>)
    requires
        all_digits(s),
    ensures
        digits_val(s) >= 0,
    decreases s.len(),
{
    if s.len() > 0 {
        assert(all_digits(s.drop_last()));
        lemma_digits_val_nonneg(s.drop_last());
    }
}

pub proof fn lemma_digits_val_pos(s: Seq<char>)
    requires
        all_digits(s),
        s.len() > 0,
        s[0] != '0',
    ensures
        digits_val(s) >= 1,
    decreases s.len(),
{
    if s.len() == 1 {
        assert(is_digit(s[0]));
        assert(s.drop_last().len() == 0);
        assert(digits_val(s.drop_last()) == 0);
        assert(s.last() == s[0]);
        assert(digits_val(s) == digit_val(s[0]));
        assert(digit_val(s[0]) >= 1) by {
            if s[0] as u32 == 48 {
                lemma_char_eq_by_u32(s[0], '0');
            }
        };
    } else {
        assert(all_digits(s.drop_last()));
        assert(s.drop_last()[0] == s[0]);
        lemma_digits_val_pos(s.drop_last());
        lemma_digits_val_nonneg(s);
        assert(digit_val(s.last()) >= 0);
    }
}

/// Two chars with the same code point are the same char.
pub proof fn lemma_char_eq_by_u32(a: char, b: char)
    requires
        a as u32 == b as u32,
    ensures
        a == b,
{
    vstd::utf8::char_u32_cast(a, a as u32);
    vstd::utf8::char_u32_cast(b, b as u32);
}

pub proof fn lemma_digit_char_val(c: char)
    requires
        is_digit(c),
    ensures
        digit_char(digit_val(c)) == c,
{
    let v = digit_val(c);
    if v == 0 {
        lemma_char_eq_by_u32(c, '0');
    } else if v == 1 {
        lemma_char_eq_by_u32(c, '1');
    } else if v == 2 {
        lemma_char_eq_by_u32(c, '2');
    } else if v == 3 {
        lemma_char_eq_by_u32(c, '3');
    } else if v == 4 {
        lemma_char_eq_by_u32(c, '4');
    } else if v == 5 {
        lemma_char_eq_by_u32(c, '5');
    } else if v == 6 {
        lemma_char_eq_by_u32(c, '6');
    } else if v == 7 {
        lemma_char_eq_by_u32(c, '7');
    } else if v == 8 {
        lemma_char_eq_by_u32(c, '8');
    } else {
        lemma_char_eq_by_u32(c, '9');
    }
}

/// Printing the value of a canonically written digit string gives the
/// string back.
pub proof fn lemma_dec_str_of_digits(t: Seq<char>)
    requires
        all_digits(t),
        t.len() > 0,
        t.len() == 1 || t[0] != '0',
    ensures
        dec_str(digits_val(t)) == t,
    decreases t.len(),
{
    let v = digits_val(t);
    lemma_digits_val_nonneg(t);
    if t.len() == 1 {
        assert(t.drop_last().len() == 0);
        assert(digits_val(t.drop_last()) == 0);
        assert(t.last() == t[0]);
        assert(v == digit_val(t[0]));
        assert(is_digit(t[0]));
        lemma_digit_char_val(t[0]);
        assert(dec_str(v) =~= t);
    } else {
        let front = t.drop_last();
        assert(all_digits(front));
        assert(front[0] == t[0]);
        lemma_digits_val_pos(front);
        let fv = digits_val(front);
        let d = digit_val(t.last());
        assert(v == fv * 10 + d);
        assert(v >= 10);
        assert(v / 10 == fv && v % 10 == d) by {
            vstd::arithmetic::div_mod::lemma_fundamental_div_mod_converse(v, 10, fv, d);
        };
        lemma_dec_str_of_digits(front);
        lemma_digit_char_val(t.last());
        assert(dec_str(v) == dec_str(fv).push(digit_char(d)));
        assert(front.push(t.last()) =~= t);
    }
}

pub proof fn lemma_token_round_trip(t: Seq<char>)
    requires
        wf_token(t),
    ensures
        frag_str(frag_of_token(t)) == t,
{
    if token_is_index(t) {
        lemma_dec_str_of_digits(t);
    }
}

pub proof fn lemma_parse_frags_len(s: Seq<char>)
    ensures
        parse_frags(s).len() >= 1,
    decreases s.len(),
{
    lemma_first_dot(s);
    let i = first_dot(s);
    if 0 <= i && i < s.len() {
        lemma_parse_frags_len(s.skip(i + 1));
    }
}

pub proof fn lemma_body_round_trip(s: Seq<char>)
    requires
        wf_body(s),
    ensures
        frags_str(parse_frags(s)) == s,
    decreases s.len(),
{
    lemma_first_dot(s);
    let i = first_dot(s);
    if 0 <= i && i < s.len() {
        let tok = s.take(i);
        let rest = s.skip(i + 1);
        lemma_token_round_trip(tok);
        lemma_body_round_trip(rest);
        lemma_parse_frags_len(rest);
        let fs = parse_frags(s);
        assert(fs == seq![frag_of_token(tok)] + parse_frags(rest));
        assert(fs.len() >= 2);
        assert(fs[0] == frag_of_token(tok));
        assert(fs.skip(1) =~= parse_frags(rest));
        assert(frags_str(fs) == frag_str(frag_of_token(tok)) + seq!['.'] + frags_str(
            parse_frags(rest),
        ));
        assert(tok + seq!['.'] + rest =~= s);
    } else {
        lemma_token_round_trip(s);
        let fs = parse_frags(s);
        assert(fs == seq![frag_of_token(s)]);
        assert(frags_str(fs) == frag_str(fs[0]));
    }
}

/// Path round-trip: for every well-formed path text, printing the parsed
/// path gives the text back.
pub proof fn lemma_path_round_trip(s: Seq<char>)
    requires
        wf_path_text(s),
    ensures
        parse_path_text(s) is Some,
        path_str(parse_path_text(s).unwrap()) == s,
{
    let p = parse_path_text(s).unwrap();
    if s[0] == '.' {
        lemma_body_round_trip(s.skip(1));
        assert(seq!['.'] + s.skip(1) =~= s);
    } else {
        lemma_body_round_trip(s);
    }
}

// ---------------------------------------------------------------------------
// Executable types
// ---------------------------------------------------------------------------

#[derive(Debug)]
pub enum Fragment {
    Index(usize),
    Name(String),
}

impl View for Fragment {
    type V = FragmentM;

    open spec fn view(&self) -> FragmentM {
        match self {
            Fragment::Index(n) => FragmentM::Index(*n as int),
            Fragment::Name(s) => FragmentM::Name(s@),
        }
    }
}

impl PartialEq for Fragment {
    fn eq(&self, other: &Fragment) -> (r: bool) {
        match (self, other) {
            (Fragment::Index(a), Fragment::Index(b)) => *a == *b,
            (Fragment::Name(a), Fragment::Name(b)) => *a == *b,
            _ => false,
        }
    }
}

impl vstd::std_specs::cmp::PartialEqSpecImpl for Fragment {
    open spec fn obeys_eq_spec() -> bool {
        true
    }

    open spec fn eq_spec(&self, other: &Fragment) -> bool {
        self@ == other@
    }
}

#[derive(Debug)]
pub struct Path {
    fragments: Vec<Fragment>,
    is_relative: bool,
}

impl View for Path {
    type V = PathM;

    closed spec fn view(&self) -> PathM {
        PathM {
            is_relative: self.is_relative,
            fragments: Seq::new(self.fragments@.len(), |i: int| self.fragments@[i]@),
        }
    }
}

// ---------------------------------------------------------------------------
// Executable operations
// ---------------------------------------------------------------------------

/// The characters of a string slice, in order.
pub fn to_chars(s: &str) -> (r: Vec<char>)
    ensures
        r@ == s@,
{
    let n = s.unicode_len();
    let mut v: Vec<char> = Vec::new();
    let mut i: usize = 0;
    while i < n
        invariant
            i <= n,
            n == s@.len(),
            v@ == s@.take(i as int),
        decreases n - i,
    {
        let c = s.get_char(i);
        v.push(c);
        i = i + 1;
        proof {
            assert(v@ =~= s@.take(i as int));
        }
    }
    proof {
        assert(v@ =~= s@);
    }
    v
}

/// Classifies the token `chars[from..to]`: a canonical or non-canonical
/// decimal that fits a `usize` becomes an index, anything else a name.
fn classify_token(chars: &Vec<char>, from: usize, to: usize) -> (f: Fragment)
    requires
        from <= to <= chars@.len(),
    ensures
        f@ == frag_of_token(chars@.subrange(from as int, to as int)),
{
    let ghost t = chars@.subrange(from as int, to as int);
    let mut all_dig = true;
    let mut overflow = false;
    let mut acc: usize = 0;
    let mut i: usize = from;
    while i < to
        invariant
            from <= i <= to <= chars@.len(),
            t == chars@.subrange(from as int, to as int),
            all_dig == all_digits(t.take(i - from)),
            all_dig && !overflow ==> acc == digits_val(t.take(i - from)),
            all_dig && overflow ==> digits_val(t.take(i - from)) > usize::MAX as int,
        decreases to - i,
    {
        let c = chars[i];
        let ghost pre = t.take(i - from);
        let ghost post = t.take(i + 1 - from);
        proof {
            assert(post.drop_last() =~= pre);
            assert(post.last() == t[i - from]);
            assert(t[i - from] == chars@[i as int]);
            assert(digits_val(post) == digits_val(pre) * 10 + digit_val(c));
        }
        let u = c as u32;
        if 48 <= u && u <= 57 {
            proof {
                assert(is_digit(c));
                if all_dig {
                    assert(forall|k: int|
                        0 <= k < post.len() ==> post[k] == if k < pre.len() {
                            pre[k]
                        } else {
                            post.last()
                        });
                    assert(all_digits(post));
                }
            }
            if all_dig && !overflow {
                let d = (u - 48) as usize;
                proof {
                    assert(d == digit_val(c));
                }
                if acc > (usize::MAX - d) / 10 {
                    overflow = true;
                    proof {
                        let q = ((usize::MAX - d) / 10) as int;
                        vstd::arithmetic::div_mod::lemma_fundamental_div_mod(
                            usize::MAX as int - d,
                            10,
                        );
                        assert(usize::MAX as int - d == 10 * q + ((usize::MAX as int - d) % 10));
                        assert(acc * 10 + d > usize::MAX as int);
                        assert(digits_val(post) > usize::MAX as int);
                    }
                } else {
                    proof {
                        let q = ((usize::MAX - d) / 10) as int;
                        vstd::arithmetic::div_mod::lemma_fundamental_div_mod(
                            usize::MAX as int - d,
                            10,
                        );
                        assert(acc * 10 + d <= usize::MAX as int);
                    }
                    acc = acc * 10 + d;
                }
            } else if all_dig && overflow {
                proof {
                    lemma_digits_val_nonneg(pre);
                    assert(digits_val(pre) > usize::MAX as int);
                    assert(digit_val(c) >= 0);
                    assert(digits_val(pre) * 10 >= digits_val(pre)) by (nonlinear_arith)
                        requires
                            digits_val(pre) >= 0,
                    ;
                    assert(digits_val(post) > usize::MAX as int);
                }
            }
        } else {
            proof {
                assert(!is_digit(post.last()));
                assert(!all_digits(post));
            }
            all_dig = false;
        }
        proof {
            if !all_dig && !all_digits(pre) {
                let k = choose|k: int| 0 <= k < pre.len() && !is_digit(pre[k]);
                assert(post[k] == pre[k]);
                assert(!all_digits(post));
            }
        }
        i = i + 1;
    }
    proof {
        assert(t.take(to - from) =~= t);
    }
    if all_dig && !overflow && to > from {
        Fragment::Index(acc)
    } else {
        let mut name = String::new();
        let mut j: usize = from;
        while j < to
            invariant
                from <= j <= to <= chars@.len(),
                t == chars@.subrange(from as int, to as int),
                name@ == t.take(j - from),
            decreases to - j,
        {
            name.push(chars[j]);
            j = j + 1;
            proof {
                assert(name@ =~= t.take(j - from));
            }
        }
        proof {
            assert(name@ =~= t);
            if all_dig && overflow {
                assert(!token_is_index(t));
            }
        }
        Fragment::Name(name)
    }
}

impl Path {
    /// Parses a path text: `None` for the empty text, otherwise the
    /// fragments split on `.`, with a leading `.` marking a relative path.
    pub fn from_str(path: &str) -> (r: Option<Path>)
        ensures
            match r {
                Some(p) => parse_path_text(path@) == Some(p@),
                None => parse_path_text(path@) is None,
            },
    {
        let chars = to_chars(path);
        if chars.len() == 0 {
            return None;
        }
        let is_relative = chars[0] == '.';
        let start: usize = if is_relative {
            1
        } else {
            0
        };
        let ghost body = if is_relative {
            path@.skip(1)
        } else {
            path@
        };
        let mut fragments: Vec<Fragment> = Vec::new();
        let mut pos: usize = start;
        let mut done = false;
        proof {
            assert(body.skip(0) =~= body);
            assert(Seq::new(fragments@.len(), |i: int| fragments@[i]@) + parse_frags(body)
                =~= parse_frags(body));
        }
        while !done
            invariant
                start <= pos <= chars@.len(),
                chars@ == path@,
                path@.len() > 0,
                is_relative == (path@[0] == '.'),
                start == if is_relative { 1int } else { 0int },
                body == if is_relative { path@.skip(1) } else { path@ },
                !done ==> parse_frags(body) == Seq::new(fragments@.len(), |i: int| fragments@[i]@)
                    + parse_frags(body.skip(pos - start)),
                done ==> parse_frags(body) == Seq::new(fragments@.len(), |i: int| fragments@[i]@),
            decreases chars@.len() - pos + (if done { 0int } else { 1int }),
        {
            let ghost rem = body.skip(pos - start);
            let ghost built = Seq::new(fragments@.len(), |i: int| fragments@[i]@);
            let mut end: usize = pos;
            while end < chars.len() && chars[end] != '.'
                invariant
                    pos <= end <= chars@.len(),
                    chars@ == path@,
                    forall|j: int| pos <= j < end ==> chars@[j] != '.',
                decreases chars@.len() - end,
            {
                end = end + 1;
            }
            let ghost tok_len = end - pos;
            proof {
                assert(rem =~= chars@.subrange(pos as int, chars@.len() as int));
                assert(forall|j: int| 0 <= j < tok_len ==> rem[j] == chars@[pos + j]);
                if (end as int) < chars@.len() {
                    assert(rem[tok_len] == chars@[end as int]);
                }
                lemma_first_dot_is(rem, tok_len);
            }
            let frag = classify_token(&chars, pos, end);
            proof {
                assert(chars@.subrange(pos as int, end as int) =~= rem.take(tok_len));
            }
            fragments.push(frag);
            proof {
                assert(Seq::new(fragments@.len(), |i: int| fragments@[i]@) =~= built.push(frag@));
            }
            if end == chars.len() {
                done = true;
                proof {
                    assert(tok_len == rem.len());
                    assert(rem.take(tok_len) =~= rem);
                    assert(parse_frags(rem) == seq![frag_of_token(rem)]);
                    assert(built + parse_frags(rem) =~= built.push(frag@));
                    assert(parse_frags(body) == Seq::new(
                        fragments@.len(),
                        |i: int| fragments@[i]@,
                    ));
                }
            } else {
                pos = end + 1;
                proof {
                    assert(0 <= tok_len && tok_len < rem.len());
                    assert(parse_frags(rem) == seq![frag_of_token(rem.take(tok_len))]
                        + parse_frags(rem.skip(tok_len + 1)));
                    assert(rem.skip(tok_len + 1) =~= body.skip(pos - start));
                    assert(built + (seq![frag@] + parse_frags(body.skip(pos - start)))
                        =~= built.push(frag@) + parse_frags(body.skip(pos - start)));
                    assert(parse_frags(body) == Seq::new(fragments@.len(), |i: int| fragments@[i]@)
                        + parse_frags(body.skip(pos - start)));
                }
            }
        }
        let r = Path { fragments, is_relative };
        proof {
            assert(path@[0] == chars@[0]);
            assert(r@.fragments == parse_frags(body));
            assert(parse_path_text(path@) == Some(r@));
        }
        Some(r)
    }

    pub fn is_relative(&self) -> (r: bool)
        ensures
            r == self@.is_relative,
    {
        self.is_relative
    }

    pub fn len(&self) -> (r: usize)
        ensures
            r == self@.fragments.len(),
    {
        self.fragments.len()
    }

    pub fn first(&self) -> (r: Option<&Fragment>)
        ensures
            match r {
                Some(f) => self@.fragments.len() > 0 && f@ == self@.fragments[0],
                None => self@.fragments.len() == 0,
            },
    {
        if self.fragments.len() == 0 {
            None
        } else {
            Some(&self.fragments[0])
        }
    }

    pub fn last(&self) -> (r: Option<&Fragment>)
        ensures
            match r {
                Some(f) => self@.fragments.len() > 0 && f@ == self@.fragments[self@.fragments.len()
                    - 1],
                None => self@.fragments.len() == 0,
            },
    {
        if self.fragments.len() == 0 {
            None
        } else {
            Some(&self.fragments[self.fragments.len() - 1])
        }
    }

    /// The fragment at position `i`, if any.
    pub fn get(&self, i: usize) -> (r: Option<&Fragment>)
        ensures
            match r {
                Some(f) => i < self@.fragments.len() && f@ == self@.fragments[i as int],
                None => i >= self@.fragments.len(),
            },
    {
        if i < self.fragments.len() {
            Some(&self.fragments[i])
        } else {
            None
        }
    }

    /// The textual form: fragments joined with `.`, with a leading `.`
    /// for a relative path.
    pub fn to_string(&self) -> (r: String)
        ensures
            r@ == path_str(self@),
    {
        let mut out = String::new();
        if self.is_relative {
            out.push('.');
        }
        let ghost fs = self@.fragments;
        let mut i: usize = 0;
        while i < self.fragments.len()
            invariant
                i <= self.fragments@.len(),
                fs == self@.fragments,
                fs.len() == self.fragments@.len(),
                forall|k: int| 0 <= k < fs.len() ==> fs[k] == self.fragments@[k]@,
                out@ == (if self@.is_relative { seq!['.'] } else { Seq::<char>::empty() }) + (
                    if i == 0 { Seq::<char>::empty() } else { frags_prefix(fs, i as int) }),
            decreases self.fragments@.len() - i,
        {
            if i > 0 {
                out.push('.');
            }
            let ghost before = out@;
            match &self.fragments[i] {
                Fragment::Index(n) => {
                    push_usize(&mut out, *n);
                }
                Fragment::Name(s) => {
                    out.append(s.as_str());
                }
            }
            proof {
                assert(out@ =~= before + frag_str(fs[i as int]));
                lemma_frags_prefix_step(fs, i as int);
                if i == 0 {
                    assert(before + frag_str(fs[0]) =~= (if self@.is_relative {
                        seq!['.']
                    } else {
                        Seq::<char>::empty()
                    }) + frags_prefix(fs, 1));
                } else {
                    assert(before =~= (if self@.is_relative {
                        seq!['.']
                    } else {
                        Seq::<char>::empty()
                    }) + frags_prefix(fs, i as int) + seq!['.']);
                    assert(before + frag_str(fs[i as int]) =~= (if self@.is_relative {
                        seq!['.']
                    } else {
                        Seq::<char>::empty()
                    }) + frags_prefix(fs, i + 1));
                }
            }
            i = i + 1;
        }
        proof {
            lemma_frags_prefix_all(fs);
            if fs.len() == 0 {
                assert(frags_str(fs) == Seq::<char>::empty());
            }
            assert(out@ =~= path_str(self@));
        }
        out
    }
}

/// The text of the first `i` fragments joined with `.` (no trailing dot).
pub open spec fn frags_prefix(fs: Seq<FragmentM>, i: int) -> Seq<char>
    decreases i,
{
    if i <= 0 {
        Seq::empty()
    } else if i == 1 {
        frag_str(fs[0])
    } else {
        frags_prefix(fs, i - 1) + seq!['.'] + frag_str(fs[i - 1])
    }
}

pub proof fn lemma_frags_prefix_step(fs: Seq<FragmentM>, i: int)
    requires
        0 <= i < fs.len(),
    ensures
        i == 0 ==> frags_prefix(fs, 1) == frag_str(fs[0]),
        i > 0 ==> frags_prefix(fs, i + 1) == frags_prefix(fs, i) + seq!['.'] + frag_str(fs[i]),
{
}

/// The left-to-right prefix text agrees with the recursive definition.
pub proof fn lemma_frags_prefix_all(fs: Seq<FragmentM>)
    ensures
        frags_prefix(fs, fs.len() as int) == frags_str(fs),
    decreases fs.len(),
{
    if fs.len() > 1 {
        lemma_frags_prefix_all(fs.drop_last());
        assert(fs.drop_last().len() == fs.len() - 1);
        lemma_frags_str_drop_last(fs);
        assert(frags_prefix(fs, fs.len() as int) == frags_prefix(fs, fs.len() - 1) + seq!['.']
            + frag_str(fs[fs.len() - 1]));
        lemma_frags_prefix_same(fs, fs.drop_last(), fs.len() - 1);
    }
}

/// `frags_prefix` only reads the first `i` fragments.
pub proof fn lemma_frags_prefix_same(a: Seq<FragmentM>, b: Seq<FragmentM>, i: int)
    requires
        i <= a.len(),
        i <= b.len(),
        forall|k: int| 0 <= k < i ==> a[k] == b[k],
    ensures
        frags_prefix(a, i) == frags_prefix(b, i),
    decreases i,
{
    if i > 1 {
        lemma_frags_prefix_same(a, b, i - 1);
    }
}

/// Splitting the last fragment off the joined text.
pub proof fn lemma_frags_str_drop_last(fs: Seq<FragmentM>)
    requires
        fs.len() > 1,
    ensures
        frags_str(fs) == frags_str(fs.drop_last()) + seq!['.'] + frag_str(fs[fs.len() - 1]),
    decreases fs.len(),
{
    if fs.len() == 2 {
        assert(fs.skip(1) =~= seq![fs[1]]);
        assert(fs.drop_last() =~= seq![fs[0]]);
        assert(frags_str(fs.skip(1)) == frag_str(fs[1]));
    } else {
        lemma_frags_str_drop_last(fs.skip(1));
        assert(fs.skip(1).drop_last() =~= fs.drop_last().skip(1));
        assert(fs.skip(1)[fs.skip(1).len() - 1] == fs[fs.len() - 1]);
        assert(fs.drop_last().len() > 1);
        assert(frags_str(fs.drop_last()) == frag_str(fs.drop_last()[0]) + seq!['.'] + frags_str(
            fs.drop_last().skip(1),
        ));
        assert(fs.drop_last()[0] == fs[0]);
        assert(frags_str(fs) == frag_str(fs[0]) + seq!['.'] + frags_str(fs.skip(1)));
    }
}

/// Appends the decimal text of `n`.
fn push_usize(s: &mut String, n: usize)
    ensures
        final(s)@ == old(s)@ + dec_str(n as int),
    decreases n,
{
    if n >= 10 {
        push_usize(s, n / 10);
        let d = (n % 10) as u8;
        s.push(digit_to_char(d));
        proof {
            assert(dec_str(n as int) == dec_str(n as int / 10).push(digit_char(n as int % 10)));
            assert(n as int / 10 == (n / 10) as int);
            assert(n as int % 10 == (n % 10) as int);
            assert(old(s)@ + dec_str(n as int) =~= (old(s)@ + dec_str((n / 10) as int)).push(
                digit_char(d as int),
            ));
        }
    } else {
        let d = n as u8;
        s.push(digit_to_char(d));
        proof {
            assert(old(s)@ + dec_str(n as int) =~= old(s)@.push(digit_char(n as int)));
        }
    }
}

fn digit_to_char(d: u8) -> (c: char)
    requires
        d < 10,
    ensures
        c == digit_char(d as int),
{
    match d {
        0 => '0',
        1 => '1',
        2 => '2',
        3 => '3',
        4 => '4',
        5 => '5',
        6 => '6',
        7 => '7',
        8 => '8',
        _ => '9',
    }
}

impl PartialEq for Path {
    fn eq(&self, other: &Path) -> (r: bool) {
        if self.is_relative != other.is_relative {
            return false;
        }
        if self.fragments.len() != other.fragments.len() {
            proof {
                assert(self@.fragments.len() == self.fragments@.len());
                assert(other@.fragments.len() == other.fragments@.len());
            }
            return false;
        }
        let mut i: usize = 0;
        while i < self.fragments.len()
            invariant
                i <= self.fragments@.len(),
                self.fragments@.len() == other.fragments@.len(),
                self.is_relative == other.is_relative,
                forall|k: int| 0 <= k < i ==> self.fragments@[k]@ == other.fragments@[k]@,
            decreases self.fragments@.len() - i,
        {
            if !(self.fragments[i] == other.fragments[i]) {
                proof {
                    assert(self@.fragments[i as int] != other@.fragments[i as int]);
                }
                return false;
            }
            i = i + 1;
        }
        proof {
            assert(self@.fragments =~= other@.fragments);
        }
        true
    }
}

impl vstd::std_specs::cmp::PartialEqSpecImpl for Path {
    open spec fn obeys_eq_spec() -> bool {
        true
    }

    open spec fn eq_spec(&self, other: &Path) -> bool {
        self@ == other@
    }
}

} // verus!
