//! The inner-tag grammar: `identifier "(" [ argument ("," argument)* ] ")"`,
//! where each argument is `identifier "=" literal` and a literal is a boolean,
//! an integer, a quoted string, or a bracketed list of literals.
//!
//! Every parsing function exists twice: as a specification function over a
//! `Seq<char>`, which is the definition of the grammar, and as an executable
//! function proved to return exactly what the specification function says.
//! The recursive parsers carry an explicit budget (`fuel`) that bounds the
//! length of any chain of nested parses; the budget handed out at the top
//! grows with the input, so any tag whose nesting is bounded by its own
//! length parses the same with or without the budget.

use vstd::prelude::*;

use crate::args::{ArgModel, ArgValue, args_model, lemma_args_model_index, lemma_args_model_len, lemma_args_model_push, lemma_list_model_len, lemma_list_model_push, list_model};

verus! {

/// The whitespace characters the directive syntax accepts between tokens:
/// space, tab, newline and form feed.
pub open spec fn is_tag_ws(c: char) -> bool {
    c == ' ' || c == '\t' || c == '\n' || c == '\u{000C}'
}

/// Characters that may open an identifier: ASCII letters and underscore.
pub open spec fn is_ident_start_char(c: char) -> bool {
    (97 <= c as u32 && c as u32 <= 122) || (65 <= c as u32 && c as u32 <= 90) || c == '_'
}

/// Characters that may continue an identifier: letters, digits, underscore.
pub open spec fn is_ident_char(c: char) -> bool {
    is_ident_start_char(c) || is_digit_char(c)
}

/// ASCII decimal digits.
pub open spec fn is_digit_char(c: char) -> bool {
    48 <= c as u32 && c as u32 <= 57
}

/// The numeric value of a decimal digit character.
pub open spec fn digit_val(c: char) -> int {
    c as u32 - 48
}

/// The first position at or after `i` holding no whitespace character
/// (or the position itself when it lies outside the text).
pub open spec fn ws_end(s: Seq<char>, i: int) -> int
    decreases s.len() - i,
{
    if 0 <= i < s.len() && is_tag_ws(s[i]) {
        ws_end(s, i + 1)
    } else {
        i
    }
}

pub proof fn lemma_ws_end(s: Seq<char>, i: int)
    requires
        0 <= i <= s.len(),
    ensures
        i <= ws_end(s, i) <= s.len(),
    decreases s.len() - i,
{
    if i < s.len() && is_tag_ws(s[i]) {
        lemma_ws_end(s, i + 1);
    }
}

/// The first position at or after `i` holding no identifier character.
pub open spec fn ident_end(s: Seq<char>, i: int) -> int
    decreases s.len() - i,
{
    if 0 <= i < s.len() && is_ident_char(s[i]) {
        ident_end(s, i + 1)
    } else {
        i
    }
}

pub proof fn lemma_ident_end(s: Seq<char>, i: int)
    requires
        0 <= i <= s.len(),
    ensures
        i <= ident_end(s, i) <= s.len(),
    decreases s.len() - i,
{
    if i < s.len() && is_ident_char(s[i]) {
        lemma_ident_end(s, i + 1);
    }
}

/// The first position at or after `i` holding no digit.
pub open spec fn digits_end(s: Seq<char>, i: int) -> int
    decreases s.len() - i,
{
    if 0 <= i < s.len() && is_digit_char(s[i]) {
        digits_end(s, i + 1)
    } else {
        i
    }
}

pub proof fn lemma_digits_end(s: Seq<char>, i: int)
    requires
        0 <= i <= s.len(),
    ensures
        i <= digits_end(s, i) <= s.len(),
    decreases s.len() - i,
{
    if i < s.len() && is_digit_char(s[i]) {
        lemma_digits_end(s, i + 1);
    }
}

pub(crate) fn is_tag_ws_exec(c: char) -> (b: bool)
    ensures
        b == is_tag_ws(c),
{
    c == ' ' || c == '\t' || c == '\n' || c == '\u{000C}'
}

pub(crate) fn is_ident_start_char_exec(c: char) -> (b: bool)
    ensures
        b == is_ident_start_char(c),
{
    let u = c as u32;
    (97 <= u && u <= 122) || (65 <= u && u <= 90) || c == '_'
}

pub(crate) fn is_ident_char_exec(c: char) -> (b: bool)
    ensures
        b == is_ident_char(c),
{
    is_ident_start_char_exec(c) || is_digit_char_exec(c)
}

pub(crate) fn is_digit_char_exec(c: char) -> (b: bool)
    ensures
        b == is_digit_char(c),
{
    let u = c as u32;
    48 <= u && u <= 57
}

pub(crate) fn ws_end_exec(s: &str, n: usize, i: usize) -> (r: usize)
    requires
        n == s@.len(),
        i <= n,
    ensures
        r == ws_end(s@, i as int),
        i <= r <= n,
{
    let mut j: usize = i;
    while j < n && is_tag_ws_exec(s.get_char(j))
        invariant
            n == s@.len(),
            i <= j <= n,
            ws_end(s@, i as int) == ws_end(s@, j as int),
        decreases n - j,
    {
        j = j + 1;
    }
    j
}

pub(crate) fn ident_end_exec(s: &str, n: usize, i: usize) -> (r: usize)
    requires
        n == s@.len(),
        i <= n,
    ensures
        r == ident_end(s@, i as int),
        i <= r <= n,
{
    let mut j: usize = i;
    while j < n && is_ident_char_exec(s.get_char(j))
        invariant
            n == s@.len(),
            i <= j <= n,
            ident_end(s@, i as int) == ident_end(s@, j as int),
        decreases n - j,
    {
        j = j + 1;
    }
    j
}

pub(crate) fn digits_end_exec(s: &str, n: usize, i: usize) -> (r: usize)
    requires
        n == s@.len(),
        i <= n,
    ensures
        r == digits_end(s@, i as int),
        i <= r <= n,
{
    let mut j: usize = i;
    while j < n && is_digit_char_exec(s.get_char(j))
        invariant
            n == s@.len(),
            i <= j <= n,
            digits_end(s@, i as int) == digits_end(s@, j as int),
        decreases n - j,
    {
        j = j + 1;
    }
    j
}


/// The unescaped content of a quoted string, read from just after the opening
/// quote: a closing quote ends it, a backslash escapes a quote or a
/// backslash, and an unterminated or ill-escaped string fails.
pub open spec fn sp_text_rest(s: Seq<char>, i: int, acc: Seq<char>, fuel: nat) -> Option<(Seq<char>, int)>
    decreases fuel,
{
    if fuel == 0 || !(0 <= i < s.len()) {
        None
    } else if s[i] == '"' {
        Some((acc, i + 1))
    } else if s[i] == '\\' {
        if i + 1 < s.len() && (s[i + 1] == '"' || s[i + 1] == '\\') {
            sp_text_rest(s, i + 2, acc.push(s[i + 1]), (fuel - 1) as nat)
        } else {
            None
        }
    } else {
        sp_text_rest(s, i + 1, acc.push(s[i]), (fuel - 1) as nat)
    }
}

/// The value of the digit run `[i, e)`, folded left from `acc`; `None` when
/// the value would not fit in a signed 64-bit integer.
pub open spec fn sp_digits_value(s: Seq<char>, i: int, e: int, acc: int) -> Option<int>
    decreases e - i,
{
    if i >= e {
        Some(acc)
    } else if acc * 10 + digit_val(s[i]) > i64::MAX {
        None
    } else {
        sp_digits_value(s, i + 1, e, acc * 10 + digit_val(s[i]))
    }
}

/// An integer literal at `i`: an optional minus sign followed by decimal
/// digits whose magnitude fits in a signed 64-bit integer.
pub open spec fn sp_number(s: Seq<char>, i: int) -> Option<(ArgModel, int)> {
    let neg = 0 <= i < s.len() && s[i] == '-';
    let d0 = if neg { i + 1 } else { i };
    let e = digits_end(s, d0);
    if e == d0 {
        None
    } else {
        match sp_digits_value(s, d0, e, 0) {
            Some(mag) => Some((ArgModel::Number(if neg { -mag } else { mag }), e)),
            None => None,
        }
    }
}

/// A literal at `i`: a boolean keyword, an integer, a quoted string, or a
/// bracketed list of literals.
pub open spec fn sp_literal(s: Seq<char>, i: int, fuel: nat) -> Option<(ArgModel, int)>
    decreases fuel,
{
    if fuel == 0 || !(0 <= i < s.len()) {
        None
    } else if s[i] == '"' {
        match sp_text_rest(s, i + 1, Seq::empty(), (fuel - 1) as nat) {
            Some((text, j)) => Some((ArgModel::Text(text), j)),
            None => None,
        }
    } else if s[i] == '[' {
        match sp_list_rest(s, i + 1, Seq::empty(), (fuel - 1) as nat) {
            Some((items, j)) => Some((ArgModel::List(items), j)),
            None => None,
        }
    } else if s[i] == '-' || is_digit_char(s[i]) {
        sp_number(s, i)
    } else if is_ident_start_char(s[i]) {
        let e = ident_end(s, i + 1);
        if e - i == 4 && s[i] == 't' && s[i + 1] == 'r' && s[i + 2] == 'u' && s[i + 3] == 'e' {
            Some((ArgModel::Boolean(true), e))
        } else if e - i == 5 && s[i] == 'f' && s[i + 1] == 'a' && s[i + 2] == 'l' && s[i + 3] == 's'
            && s[i + 4] == 'e' {
            Some((ArgModel::Boolean(false), e))
        } else {
            None
        }
    } else {
        None
    }
}

/// The items of a bracketed list, read from just after the opening bracket or
/// a separating comma, with the items already read in `acc`.
pub open spec fn sp_list_rest(s: Seq<char>, i: int, acc: Seq<ArgModel>, fuel: nat) -> Option<(Seq<ArgModel>, int)>
    decreases fuel,
{
    if fuel == 0 {
        None
    } else {
        let j = ws_end(s, i);
        if !(0 <= j < s.len()) {
            None
        } else if s[j] == ']' && acc.len() == 0 {
            Some((acc, j + 1))
        } else {
            match sp_literal(s, j, (fuel - 1) as nat) {
                None => None,
                Some((v, k)) => {
                    let m = ws_end(s, k);
                    if 0 <= m < s.len() && s[m] == ',' {
                        sp_list_rest(s, m + 1, acc.push(v), (fuel - 1) as nat)
                    } else if 0 <= m < s.len() && s[m] == ']' {
                        Some((acc.push(v), m + 1))
                    } else {
                        None
                    }
                },
            }
        }
    }
}

/// Whether the mapping already binds the given name.
pub open spec fn sp_has_key(args: Seq<(Seq<char>, ArgModel)>, k: Seq<char>) -> bool {
    exists|j: int| 0 <= j < args.len() && args[j].0 == k
}

/// The arguments of a tag, read from the start of one `name = literal`
/// binding, with the bindings already read in `acc`.  A name bound twice
/// fails the parse: argument names are unique within one directive.
pub open spec fn sp_args_rest(
    s: Seq<char>,
    i: int,
    acc: Seq<(Seq<char>, ArgModel)>,
    fuel: nat,
) -> Option<(Seq<(Seq<char>, ArgModel)>, int)>
    decreases fuel,
{
    if fuel == 0 || !(0 <= i < s.len()) || !is_ident_start_char(s[i]) {
        None
    } else {
        let e = ident_end(s, i + 1);
        let k = s.subrange(i, e);
        if sp_has_key(acc, k) {
            None
        } else {
            let j = ws_end(s, e);
            if 0 <= j < s.len() && s[j] == '=' {
                let m = ws_end(s, j + 1);
                match sp_literal(s, m, (fuel - 1) as nat) {
                    None => None,
                    Some((v, p)) => {
                        let q = ws_end(s, p);
                        if 0 <= q < s.len() && s[q] == ',' {
                            sp_args_rest(s, ws_end(s, q + 1), acc.push((k, v)), (fuel - 1) as nat)
                        } else if 0 <= q < s.len() && s[q] == ')' {
                            Some((acc.push((k, v)), q + 1))
                        } else {
                            None
                        }
                    },
                }
            } else {
                None
            }
        }
    }
}

/// A whole inner tag at `i`: an identifier, an opening parenthesis, an
/// optionally empty argument list, and a closing parenthesis.  The returned
/// position stands immediately after the closing parenthesis.
pub open spec fn sp_tag(s: Seq<char>, i: int, fuel: nat) -> Option<(Seq<char>, Seq<(Seq<char>, ArgModel)>, int)>
    decreases fuel,
{
    if fuel == 0 || !(0 <= i < s.len()) || !is_ident_start_char(s[i]) {
        None
    } else {
        let e = ident_end(s, i + 1);
        let name = s.subrange(i, e);
        let j = ws_end(s, e);
        if 0 <= j < s.len() && s[j] == '(' {
            let k = ws_end(s, j + 1);
            if 0 <= k < s.len() && s[k] == ')' {
                Some((name, Seq::empty(), k + 1))
            } else {
                match sp_args_rest(s, k, Seq::empty(), (fuel - 1) as nat) {
                    Some((args, p)) => Some((name, args, p)),
                    None => None,
                }
            }
        } else {
            None
        }
    }
}

/// The parsing budget handed to the tag parser: generous enough that any
/// chain of nested parses, each of which consumes at least one character,
/// stays within it.
pub open spec fn tag_fuel(s: Seq<char>) -> nat {
    s.len() + 2
}


/// Every character of a digit run is a digit.
pub proof fn lemma_digits_end_digits(s: Seq<char>, i: int)
    requires
        0 <= i <= s.len(),
    ensures
        forall|j: int| i <= j < digits_end(s, i) ==> is_digit_char(s[j]),
    decreases s.len() - i,
{
    if i < s.len() && is_digit_char(s[i]) {
        lemma_digits_end_digits(s, i + 1);
        lemma_digits_end(s, i + 1);
    }
}

/// Relies on String::push: appends the given character to the end of the
/// string, changing nothing else.
#[verifier::external_body]
fn push_char(s: &mut String, c: char)
    ensures
        final(s)@ == old(s)@.push(c),
{
    s.push(c);
}

fn parse_text_rest(s: &str, n: usize, i: usize, acc: String, fuel: u128) -> (r: Option<(String, usize)>)
    requires
        n == s@.len(),
        i <= n,
    ensures
        r is None ==> sp_text_rest(s@, i as int, acc@, fuel as nat) is None,
        r matches Some((t, p)) ==> sp_text_rest(s@, i as int, acc@, fuel as nat)
            == Some((t@, p as int)) && p <= n,
    decreases fuel,
{
    if fuel == 0 || i >= n {
        return None;
    }
    let c = s.get_char(i);
    if c == '"' {
        Some((acc, i + 1))
    } else if c == '\\' {
        if i + 1 < n {
            let c2 = s.get_char(i + 1);
            if c2 == '"' || c2 == '\\' {
                let mut acc2 = acc;
                push_char(&mut acc2, c2);
                parse_text_rest(s, n, i + 2, acc2, fuel - 1)
            } else {
                None
            }
        } else {
            None
        }
    } else {
        let mut acc2 = acc;
        push_char(&mut acc2, c);
        parse_text_rest(s, n, i + 1, acc2, fuel - 1)
    }
}

fn parse_number(s: &str, n: usize, i: usize) -> (r: Option<(ArgValue, usize)>)
    requires
        n == s@.len(),
        i <= n,
    ensures
        r is None ==> sp_number(s@, i as int) is None,
        r matches Some((v, p)) ==> sp_number(s@, i as int) == Some((v@, p as int)) && p <= n,
{
    if i >= n {
        proof {
            assert(digits_end(s@, i as int) == i);
            assert(sp_number(s@, i as int) is None);
        }
        return None;
    }
    let neg = s.get_char(i) == '-';
    let d0 = if neg { i + 1 } else { i };
    let e = digits_end_exec(s, n, d0);
    if e == d0 {
        return None;
    }
    proof {
        lemma_digits_end_digits(s@, d0 as int);
    }
    let mut acc: i64 = 0;
    let mut j = d0;
    while j < e
        invariant
            n == s@.len(),
            i < n,
            neg == (s@[i as int] == '-'),
            d0 as int == if neg { i as int + 1 } else { i as int },
            d0 <= j <= e,
            e == digits_end(s@, d0 as int),
            e != d0,
            e <= n,
            0 <= acc,
            forall|q: int| d0 <= q < e ==> is_digit_char(s@[q]),
            sp_digits_value(s@, d0 as int, e as int, 0)
                == sp_digits_value(s@, j as int, e as int, acc as int),
        decreases e - j,
    {
        let c = s.get_char(j);
        let d: i64 = ((c as u32) - 48) as i64;
        let wide: i128 = (acc as i128) * 10 + (d as i128);
        if wide > (i64::MAX as i128) {
            proof {
                assert(sp_digits_value(s@, j as int, e as int, acc as int) is None);
                assert(sp_digits_value(s@, d0 as int, e as int, 0) is None);
                assert(sp_number(s@, i as int) is None);
            }
            return None;
        }
        acc = wide as i64;
        j = j + 1;
    }
    proof {
        assert(sp_digits_value(s@, e as int, e as int, acc as int) == Some(acc as int));
    }
    let value: i64 = if neg {
        -acc
    } else {
        acc
    };
    Some((ArgValue::Number(value), e))
}

fn parse_literal(s: &str, n: usize, i: usize, fuel: u128) -> (r: Option<(ArgValue, usize)>)
    requires
        n == s@.len(),
        i <= n,
    ensures
        r is None ==> sp_literal(s@, i as int, fuel as nat) is None,
        r matches Some((v, p)) ==> sp_literal(s@, i as int, fuel as nat)
            == Some((v@, p as int)) && p <= n,
    decreases fuel,
{
    if fuel == 0 || i >= n {
        return None;
    }
    let c = s.get_char(i);
    if c == '"' {
        match parse_text_rest(s, n, i + 1, String::new(), fuel - 1) {
            Some((t, p)) => Some((ArgValue::Text(t), p)),
            None => None,
        }
    } else if c == '[' {
        proof {
            assert(list_model(Seq::<ArgValue>::empty()) == Seq::<ArgModel>::empty());
        }
        match parse_list_rest(s, n, i + 1, Vec::new(), fuel - 1) {
            Some((items, p)) => Some((ArgValue::List(items), p)),
            None => None,
        }
    } else if c == '-' || is_digit_char_exec(c) {
        parse_number(s, n, i)
    } else if is_ident_start_char_exec(c) {
        let e = ident_end_exec(s, n, i + 1);
        if e - i == 4 && s.get_char(i + 1) == 'r' && s.get_char(i + 2) == 'u'
            && s.get_char(i + 3) == 'e' && c == 't' {
            Some((ArgValue::Boolean(true), e))
        } else if e - i == 5 && s.get_char(i + 1) == 'a' && s.get_char(i + 2) == 'l'
            && s.get_char(i + 3) == 's' && s.get_char(i + 4) == 'e' && c == 'f' {
            Some((ArgValue::Boolean(false), e))
        } else {
            None
        }
    } else {
        None
    }
}

fn parse_list_rest(s: &str, n: usize, i: usize, acc: Vec<ArgValue>, fuel: u128) -> (r: Option<(Vec<ArgValue>, usize)>)
    requires
        n == s@.len(),
        i <= n,
    ensures
        r is None ==> sp_list_rest(s@, i as int, list_model(acc@), fuel as nat) is None,
        r matches Some((v, p)) ==> sp_list_rest(s@, i as int, list_model(acc@), fuel as nat)
            == Some((list_model(v@), p as int)) && p <= n,
    decreases fuel,
{
    if fuel == 0 {
        return None;
    }
    let j = ws_end_exec(s, n, i);
    if j >= n {
        return None;
    }
    proof {
        lemma_list_model_len(acc@);
    }
    let cj = s.get_char(j);
    if cj == ']' && acc.len() == 0 {
        return Some((acc, j + 1));
    }
    match parse_literal(s, n, j, fuel - 1) {
        None => None,
        Some((v, k)) => {
            let m = ws_end_exec(s, n, k);
            if m < n && s.get_char(m) == ',' {
                proof {
                    lemma_list_model_push(acc@, v);
                }
                let mut acc2 = acc;
                acc2.push(v);
                parse_list_rest(s, n, m + 1, acc2, fuel - 1)
            } else if m < n && s.get_char(m) == ']' {
                proof {
                    lemma_list_model_push(acc@, v);
                }
                let mut acc2 = acc;
                acc2.push(v);
                Some((acc2, m + 1))
            } else {
                None
            }
        },
    }
}

fn has_key_exec(pairs: &Vec<(String, ArgValue)>, k: &String) -> (b: bool)
    ensures
        b == sp_has_key(args_model(pairs@), k@),
{
    proof {
        lemma_args_model_len(pairs@);
    }
    let mut idx: usize = 0;
    while idx < pairs.len()
        invariant
            idx <= pairs@.len(),
            args_model(pairs@).len() == pairs@.len(),
            forall|q: int| 0 <= q < idx ==> args_model(pairs@)[q].0 != k@,
        decreases pairs@.len() - idx,
    {
        proof {
            lemma_args_model_index(pairs@, idx as int);
        }
        if pairs[idx].0 == *k {
            return true;
        }
        idx = idx + 1;
    }
    false
}

fn parse_args_rest(
    s: &str,
    n: usize,
    i: usize,
    acc: Vec<(String, ArgValue)>,
    fuel: u128,
) -> (r: Option<(Vec<(String, ArgValue)>, usize)>)
    requires
        n == s@.len(),
        i <= n,
    ensures
        r is None ==> sp_args_rest(s@, i as int, args_model(acc@), fuel as nat) is None,
        r matches Some((v, p)) ==> sp_args_rest(s@, i as int, args_model(acc@), fuel as nat)
            == Some((args_model(v@), p as int)) && p <= n,
    decreases fuel,
{
    if fuel == 0 || i >= n {
        return None;
    }
    if !is_ident_start_char_exec(s.get_char(i)) {
        return None;
    }
    let e = ident_end_exec(s, n, i + 1);
    let k = s.substring_char(i, e).to_owned();
    if has_key_exec(&acc, &k) {
        return None;
    }
    let j = ws_end_exec(s, n, e);
    if !(j < n) {
        return None;
    }
    if !(s.get_char(j) == '=') {
        return None;
    }
    let m = ws_end_exec(s, n, j + 1);
    match parse_literal(s, n, m, fuel - 1) {
        None => None,
        Some((v, p)) => {
            let q = ws_end_exec(s, n, p);
            if q < n && s.get_char(q) == ',' {
                proof {
                    lemma_args_model_push(acc@, k, v);
                }
                let q2 = ws_end_exec(s, n, q + 1);
                let mut acc2 = acc;
                acc2.push((k, v));
                parse_args_rest(s, n, q2, acc2, fuel - 1)
            } else if q < n && s.get_char(q) == ')' {
                proof {
                    lemma_args_model_push(acc@, k, v);
                }
                let mut acc2 = acc;
                acc2.push((k, v));
                Some((acc2, q + 1))
            } else {
                None
            }
        },
    }
}

/// Parses a whole inner tag at `i`, handing back the directive name, its
/// argument mapping in parse order, and the position immediately after the
/// closing parenthesis.
pub(crate) fn parse_tag(s: &str, n: usize, i: usize, fuel: u128) -> (r: Option<(String, Vec<(String, ArgValue)>, usize)>)
    requires
        n == s@.len(),
        i <= n,
    ensures
        r is None ==> sp_tag(s@, i as int, fuel as nat) is None,
        r matches Some((name, args, p)) ==> sp_tag(s@, i as int, fuel as nat)
            == Some((name@, args_model(args@), p as int)) && p <= n,
    decreases fuel,
{
    if fuel == 0 || i >= n {
        return None;
    }
    if !is_ident_start_char_exec(s.get_char(i)) {
        return None;
    }
    let e = ident_end_exec(s, n, i + 1);
    let name = s.substring_char(i, e).to_owned();
    let j = ws_end_exec(s, n, e);
    if !(j < n) {
        return None;
    }
    if !(s.get_char(j) == '(') {
        return None;
    }
    let k = ws_end_exec(s, n, j + 1);
    proof {
        assert(args_model(Seq::<(String, ArgValue)>::empty()) == Seq::<(Seq<char>, ArgModel)>::empty());
    }
    if k < n && s.get_char(k) == ')' {
        let empty_args: Vec<(String, ArgValue)> = Vec::new();
        return Some((name, empty_args, k + 1));
    }
    match parse_args_rest(s, n, k, Vec::new(), fuel - 1) {
        Some((args, p)) => Some((name, args, p)),
        None => None,
    }
}


/// A successful string parse ends past its start and within the text.
proof fn lemma_text_rest_bounds(s: Seq<char>, i: int, acc: Seq<char>, fuel: nat)
    requires
        0 <= i <= s.len(),
    ensures
        sp_text_rest(s, i, acc, fuel) matches Some((t, p)) ==> i < p <= s.len(),
    decreases fuel,
{
    if fuel == 0 || !(0 <= i < s.len()) {
    } else if s[i] == '"' {
    } else if s[i] == '\\' {
        if i + 1 < s.len() && (s[i + 1] == '"' || s[i + 1] == '\\') {
            lemma_text_rest_bounds(s, i + 2, acc.push(s[i + 1]), (fuel - 1) as nat);
        }
    } else {
        lemma_text_rest_bounds(s, i + 1, acc.push(s[i]), (fuel - 1) as nat);
    }
}

/// A successful literal parse ends past its start and within the text.
proof fn lemma_literal_bounds(s: Seq<char>, i: int, fuel: nat)
    requires
        0 <= i <= s.len(),
    ensures
        sp_literal(s, i, fuel) matches Some((v, p)) ==> i < p <= s.len(),
    decreases fuel,
{
    if fuel == 0 || !(0 <= i < s.len()) {
    } else if s[i] == '"' {
        lemma_text_rest_bounds(s, i + 1, Seq::empty(), (fuel - 1) as nat);
    } else if s[i] == '[' {
        lemma_list_rest_bounds(s, i + 1, Seq::empty(), (fuel - 1) as nat);
        lemma_ws_end(s, i + 1);
    } else if s[i] == '-' || is_digit_char(s[i]) {
        if s[i] == '-' {
            lemma_digits_end(s, i + 1);
        } else {
            lemma_digits_end(s, i);
        }
    } else {
        lemma_ident_end(s, i + 1);
    }
}

/// A successful list parse ends after the whitespace at its start and
/// within the text.
proof fn lemma_list_rest_bounds(s: Seq<char>, i: int, acc: Seq<ArgModel>, fuel: nat)
    requires
        0 <= i <= s.len(),
    ensures
        sp_list_rest(s, i, acc, fuel) matches Some((l, p)) ==> ws_end(s, i) < p <= s.len(),
    decreases fuel,
{
    lemma_ws_end(s, i);
    if fuel == 0 {
    } else {
        let j = ws_end(s, i);
        if !(0 <= j < s.len()) {
        } else if s[j] == ']' && acc.len() == 0 {
        } else {
            lemma_literal_bounds(s, j, (fuel - 1) as nat);
            match sp_literal(s, j, (fuel - 1) as nat) {
                None => {},
                Some((v, k)) => {
                    lemma_ws_end(s, k);
                    let m = ws_end(s, k);
                    if 0 <= m < s.len() && s[m] == ',' {
                        lemma_list_rest_bounds(s, m + 1, acc.push(v), (fuel - 1) as nat);
                        lemma_ws_end(s, m + 1);
                    }
                },
            }
        }
    }
}

/// A successful argument-list parse ends past its start and within the
/// text.
proof fn lemma_args_rest_bounds(s: Seq<char>, i: int, acc: Seq<(Seq<char>, ArgModel)>, fuel: nat)
    requires
        0 <= i <= s.len(),
    ensures
        sp_args_rest(s, i, acc, fuel) matches Some((a, p)) ==> i < p <= s.len(),
    decreases fuel,
{
    if fuel == 0 || !(0 <= i < s.len()) || !is_ident_start_char(s[i]) {
    } else {
        let e = ident_end(s, i + 1);
        lemma_ident_end(s, i + 1);
        let k = s.subrange(i, e);
        if sp_has_key(acc, k) {
        } else {
            let j = ws_end(s, e);
            lemma_ws_end(s, e);
            if 0 <= j < s.len() && s[j] == '=' {
                let m = ws_end(s, j + 1);
                lemma_ws_end(s, j + 1);
                lemma_literal_bounds(s, m, (fuel - 1) as nat);
                match sp_literal(s, m, (fuel - 1) as nat) {
                    None => {},
                    Some((v, p)) => {
                        let q = ws_end(s, p);
                        lemma_ws_end(s, p);
                        if 0 <= q < s.len() && s[q] == ',' {
                            lemma_ws_end(s, q + 1);
                            lemma_args_rest_bounds(s, ws_end(s, q + 1), acc.push((k, v)), (fuel - 1) as nat);
                        }
                    },
                }
            }
        }
    }
}

/// A successful tag parse ends past its start and within the text.
pub proof fn lemma_tag_bounds(s: Seq<char>, i: int, fuel: nat)
    requires
        0 <= i <= s.len(),
    ensures
        sp_tag(s, i, fuel) matches Some((name, args, p)) ==> i < p <= s.len(),
    decreases fuel,
{
    if fuel == 0 || !(0 <= i < s.len()) || !is_ident_start_char(s[i]) {
    } else {
        let e = ident_end(s, i + 1);
        lemma_ident_end(s, i + 1);
        let j = ws_end(s, e);
        lemma_ws_end(s, e);
        if 0 <= j < s.len() && s[j] == '(' {
            let k = ws_end(s, j + 1);
            lemma_ws_end(s, j + 1);
            if 0 <= k < s.len() && s[k] == ')' {
            } else {
                lemma_args_rest_bounds(s, k, Seq::empty(), (fuel - 1) as nat);
            }
        }
    }
}

} // verus!
