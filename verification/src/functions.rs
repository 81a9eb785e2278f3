//! The function registry: the fixed set of built-in functions that a
//! call may name, as a mapping from name to a tagged behaviour.

use vstd::prelude::*;

use crate::lexer::spec_is_digit;
use crate::strutil::str_eq;

verus! {

/// The behaviour of a built-in function: a one-argument real-valued
/// function applied to its evaluated argument, or the variadic
/// greatest-common-divisor fold.
#[derive(Debug, Copy, Clone, PartialEq, Eq, Structural)]
pub enum Builtin {
    /// Natural logarithm.
    Ln,
    /// Base-10 logarithm (the registry name is `log`).
    Log,
    Sin,
    Cos,
    Tan,
    Asin,
    Acos,
    Atan,
    Sinh,
    Cosh,
    Tanh,
    Asinh,
    Acosh,
    Atanh,
    Sqrt,
    Cbrt,
    Floor,
    Ceil,
    Round,
    Abs,
    /// Variadic: folds its arguments pairwise with the Euclidean rule.
    Gcd,
}

/// The registry: name to behaviour, consulted in order.
pub type FnMap = Vec<(String, Builtin)>;

/// The shapes of a registry.
pub open spec fn fnmap_views(m: Seq<(String, Builtin)>) -> Seq<(Seq<char>, Builtin)> {
    m.map(|i: int, p: (String, Builtin)| (p.0@, p.1))
}

/// The fixed registry contents.
pub open spec fn spec_default_functions() -> Seq<(Seq<char>, Builtin)> {
    seq![
        ("ln"@, Builtin::Ln),
        ("log"@, Builtin::Log),
        ("sin"@, Builtin::Sin),
        ("cos"@, Builtin::Cos),
        ("tan"@, Builtin::Tan),
        ("asin"@, Builtin::Asin),
        ("acos"@, Builtin::Acos),
        ("atan"@, Builtin::Atan),
        ("sinh"@, Builtin::Sinh),
        ("cosh"@, Builtin::Cosh),
        ("tanh"@, Builtin::Tanh),
        ("asinh"@, Builtin::Asinh),
        ("acosh"@, Builtin::Acosh),
        ("atanh"@, Builtin::Atanh),
        ("sqrt"@, Builtin::Sqrt),
        ("cbrt"@, Builtin::Cbrt),
        ("floor"@, Builtin::Floor),
        ("ceil"@, Builtin::Ceil),
        ("round"@, Builtin::Round),
        ("abs"@, Builtin::Abs),
        ("gcd"@, Builtin::Gcd),
    ]
}

/// The default registry: logarithms, trigonometric functions and their
/// inverse and hyperbolic forms, roots, rounding, absolute value, and
/// the variadic `gcd`.
pub fn default_functions() -> (m: FnMap)
    ensures
        fnmap_views(m@) == spec_default_functions(),
{
    let mut m: FnMap = Vec::new();
    m.push(("ln".to_owned(), Builtin::Ln));
    m.push(("log".to_owned(), Builtin::Log));
    m.push(("sin".to_owned(), Builtin::Sin));
    m.push(("cos".to_owned(), Builtin::Cos));
    m.push(("tan".to_owned(), Builtin::Tan));
    m.push(("asin".to_owned(), Builtin::Asin));
    m.push(("acos".to_owned(), Builtin::Acos));
    m.push(("atan".to_owned(), Builtin::Atan));
    m.push(("sinh".to_owned(), Builtin::Sinh));
    m.push(("cosh".to_owned(), Builtin::Cosh));
    m.push(("tanh".to_owned(), Builtin::Tanh));
    m.push(("asinh".to_owned(), Builtin::Asinh));
    m.push(("acosh".to_owned(), Builtin::Acosh));
    m.push(("atanh".to_owned(), Builtin::Atanh));
    m.push(("sqrt".to_owned(), Builtin::Sqrt));
    m.push(("cbrt".to_owned(), Builtin::Cbrt));
    m.push(("floor".to_owned(), Builtin::Floor));
    m.push(("ceil".to_owned(), Builtin::Ceil));
    m.push(("round".to_owned(), Builtin::Round));
    m.push(("abs".to_owned(), Builtin::Abs));
    m.push(("gcd".to_owned(), Builtin::Gcd));
    proof {
        assert(fnmap_views(m@) =~= spec_default_functions());
    }
    m
}

/// The first behaviour registered under `name`, if any.
pub open spec fn spec_lookup(m: Seq<(Seq<char>, Builtin)>, name: Seq<char>) -> Option<Builtin>
    decreases m.len(),
{
    if m.len() == 0 {
        None
    } else if m[0].0 == name {
        Some(m[0].1)
    } else {
        spec_lookup(m.drop_first(), name)
    }
}

/// Look a name up in a registry.
pub fn lookup(m: &FnMap, name: &str) -> (r: Option<Builtin>)
    ensures
        r == spec_lookup(fnmap_views(m@), name@),
{
    let ghost fv = fnmap_views(m@);
    proof {
        assert(fv.skip(0) =~= fv);
    }
    let mut k: usize = 0;
    while k < m.len()
        invariant
            k <= m@.len(),
            fv == fnmap_views(m@),
            fv.len() == m@.len(),
            spec_lookup(fv, name@) == spec_lookup(fv.skip(k as int), name@),
        decreases m@.len() - k,
    {
        if str_eq(m[k].0.as_str(), name) {
            proof {
                assert(fv.skip(k as int)[0] == fv[k as int]);
            }
            return Some(m[k].1);
        }
        proof {
            assert(fv.skip(k as int).drop_first() =~= fv.skip(k + 1int));
            assert(fv.skip(k as int)[0] == fv[k as int]);
        }
        k += 1;
    }
    proof {
        assert(fv.skip(k as int).len() == 0);
    }
    None
}

/// The first position at or after `i` in `s` that holds no decimal
/// digit.
pub open spec fn dec_run_end(s: Seq<char>, i: int) -> int
    decreases s.len() - i,
{
    if i >= s.len() {
        s.len() as int
    } else if !spec_is_digit(s[i], 10) {
        i
    } else {
        dec_run_end(s, i + 1)
    }
}

/// `c` lowered: an upper-case ASCII letter becomes its lower-case form.
pub open spec fn spec_ascii_lower(c: char) -> char {
    let v = c as u32;
    if 65 <= v <= 90 {
        ((v + 32) as u8) as char
    } else {
        c
    }
}

/// Whether `s` from position `i` on reads as `word`, ASCII
/// case-insensitively.
pub open spec fn spec_ci_tail(s: Seq<char>, i: int, word: Seq<char>) -> bool {
    s.len() - i == word.len() && (forall|j: int|
        0 <= j < word.len() ==> spec_ascii_lower(#[trigger] s[i + j]) == word[j])
}

/// Whether `s` from position `i` on is an exponent part or the end:
/// `e` or `E`, an optional sign, and at least one digit reaching the
/// end.
pub open spec fn spec_exp_or_end(s: Seq<char>, i: int) -> bool {
    i == s.len() || (i < s.len() && (s[i] == 'e' || s[i] == 'E') && {
        let c = if i + 1 < s.len() && (s[i + 1] == '+' || s[i + 1] == '-') {
            i + 2
        } else {
            i + 1
        };
        dec_run_end(s, c) == s.len() && s.len() > c
    })
}

/// Whether `s` is a text the standard decimal-number parser accepts:
/// an optional sign, then `inf`, `infinity` or `nan` in any case, or
/// digits with an optional dot, fraction and exponent.
pub open spec fn spec_is_float_text(s: Seq<char>) -> bool {
    let i = if s.len() > 0 && (s[0] == '+' || s[0] == '-') {
        1int
    } else {
        0int
    };
    spec_ci_tail(s, i, "inf"@) || spec_ci_tail(s, i, "infinity"@) || spec_ci_tail(s, i, "nan"@) || {
        let a = dec_run_end(s, i);
        if a > i {
            let b = if a < s.len() && s[a] == '.' {
                dec_run_end(s, a + 1)
            } else {
                a
            };
            spec_exp_or_end(s, b)
        } else {
            i < s.len() && s[i] == '.' && {
                let b = dec_run_end(s, i + 1);
                b > i + 1 && spec_exp_or_end(s, b)
            }
        }
    }
}

} // verus!

verus! {

/// The first non-digit position in `s` at or after `i`.
fn scan_dec_run(s: &Vec<char>, i: usize) -> (p: usize)
    requires
        i <= s@.len(),
    ensures
        i <= p <= s@.len(),
        p == dec_run_end(s@, i as int),
{
    let mut idx = i;
    while idx < s.len() && crate::lexer::digit_val(s[idx]) < 10
        invariant
            i <= idx <= s@.len(),
            dec_run_end(s@, i as int) == dec_run_end(s@, idx as int),
        decreases s@.len() - idx,
    {
        idx += 1;
    }
    idx
}

/// `c` with an upper-case ASCII letter lowered.
fn ascii_lower(c: char) -> (r: char)
    ensures
        r == spec_ascii_lower(c),
{
    let v = c as u32;
    if 65 <= v && v <= 90 {
        ((v + 32) as u8) as char
    } else {
        c
    }
}

/// Whether `s` from `i` on reads as `word`, ASCII case-insensitively.
fn ci_tail(s: &Vec<char>, i: usize, word: &Vec<char>) -> (r: bool)
    requires
        i <= s@.len(),
    ensures
        r == spec_ci_tail(s@, i as int, word@),
{
    if s.len() - i != word.len() {
        return false;
    }
    let slen = s.len();
    let mut j: usize = 0;
    while j < word.len()
        invariant
            j <= word@.len(),
            i + word@.len() == s@.len(),
            i <= s@.len(),
            slen == s@.len(),
            forall|q: int| 0 <= q < j ==> spec_ascii_lower(#[trigger] s@[i + q]) == word@[q],
        decreases word@.len() - j,
    {
        if ascii_lower(s[i + j]) != word[j] {
            return false;
        }
        j += 1;
    }
    true
}

/// Whether `s` from `i` on is an exponent part or the end.
fn exp_or_end(s: &Vec<char>, i: usize) -> (r: bool)
    requires
        i <= s@.len(),
    ensures
        r == spec_exp_or_end(s@, i as int),
{
    if i == s.len() {
        return true;
    }
    if !(s[i] == 'e' || s[i] == 'E') {
        return false;
    }
    let c = if i + 1 < s.len() && (s[i + 1] == '+' || s[i + 1] == '-') {
        i + 2
    } else {
        i + 1
    };
    if c > s.len() {
        return false;
    }
    let d = scan_dec_run(s, c);
    d == s.len() && s.len() > c
}

/// Whether `text` is a text the standard decimal-number parser
/// accepts (the rule by which a `log_<base>` name is told apart from
/// an unknown one).
pub fn is_float_text(text: &str) -> (r: bool)
    ensures
        r == spec_is_float_text(text@),
{
    let n = text.unicode_len();
    let mut s: Vec<char> = Vec::new();
    let mut k: usize = 0;
    while k < n
        invariant
            k <= n,
            n == text@.len(),
            s@ == text@.subrange(0, k as int),
        decreases n - k,
    {
        s.push(text.get_char(k));
        proof {
            assert(text@.subrange(0, k + 1int) =~= text@.subrange(0, k as int).push(
                text@[k as int],
            ));
        }
        k += 1;
    }
    proof {
        assert(text@.subrange(0, n as int) =~= text@);
    }
    let i: usize = if s.len() > 0 && (s[0] == '+' || s[0] == '-') {
        1
    } else {
        0
    };
    let mut winf: Vec<char> = Vec::new();
    winf.push('i');
    winf.push('n');
    winf.push('f');
    let mut winfinity: Vec<char> = Vec::new();
    winfinity.push('i');
    winfinity.push('n');
    winfinity.push('f');
    winfinity.push('i');
    winfinity.push('n');
    winfinity.push('i');
    winfinity.push('t');
    winfinity.push('y');
    let mut wnan: Vec<char> = Vec::new();
    wnan.push('n');
    wnan.push('a');
    wnan.push('n');
    proof {
        reveal_strlit("inf");
        reveal_strlit("infinity");
        reveal_strlit("nan");
        assert(winf@ =~= "inf"@);
        assert(winfinity@ =~= "infinity"@);
        assert(wnan@ =~= "nan"@);
    }
    if ci_tail(&s, i, &winf) || ci_tail(&s, i, &winfinity) || ci_tail(&s, i, &wnan) {
        return true;
    }
    let a = scan_dec_run(&s, i);
    if a > i {
        let b = if a < s.len() && s[a] == '.' {
            scan_dec_run(&s, a + 1)
        } else {
            a
        };
        exp_or_end(&s, b)
    } else {
        if i < s.len() && s[i] == '.' {
            let b = scan_dec_run(&s, i + 1);
            b > i + 1 && exp_or_end(&s, b)
        } else {
            false
        }
    }
}

} // verus!
