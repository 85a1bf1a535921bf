//! Text building with exact contracts: number formatting, literal comparison
//! and first-match search, shared by the modules that report in words.

use vstd::prelude::*;
use vstd::string::{StrSliceExecFns, StringExecFns};

verus! {

/// `std::string::String::push` appends one character to the end of the string.
pub assume_specification [String::push](s: &mut String, c: char)
    ensures
        final(s)@ == old(s)@.push(c),
;

/// The lower-case digit of a value below sixteen.
pub open spec fn digit_char(d: u8) -> char {
    match d {
        0 => '0',
        1 => '1',
        2 => '2',
        3 => '3',
        4 => '4',
        5 => '5',
        6 => '6',
        7 => '7',
        8 => '8',
        9 => '9',
        10 => 'a',
        11 => 'b',
        12 => 'c',
        13 => 'd',
        14 => 'e',
        _ => 'f',
    }
}

/// `n` written in positional notation with the given base, most significant
/// digit first, without leading zeros.
pub open spec fn digits(n: nat, base: nat) -> Seq<char>
    decreases n,
{
    if base < 2 || n < base {
        seq![digit_char(n as u8)]
    } else {
        proof {
            assert(n / base < n) by (nonlinear_arith)
                requires
                    n >= base,
                    base >= 2,
            ;
        }
        digits(n / base, base).push(digit_char((n % base) as u8))
    }
}

/// Decimal text of `n`.
pub open spec fn dec(n: nat) -> Seq<char> {
    digits(n, 10)
}

/// Hexadecimal text of `n` with its `0x` prefix.
pub open spec fn hex(n: nat) -> Seq<char> {
    "0x"@ + digits(n, 16)
}

/// Value of the first index below `n` at which `f` yields one.
pub open spec fn first_some<T>(f: spec_fn(int) -> Option<T>, n: nat) -> Option<T>
    decreases n,
{
    if n == 0 {
        None
    } else {
        match first_some(f, (n - 1) as nat) {
            Some(x) => Some(x),
            None => f(n - 1),
        }
    }
}

/// [`first_some`] finds nothing exactly when no index below the bound yields a
/// value, and what it finds is the value at an index before which there is none.
pub proof fn lemma_first_some<T>(f: spec_fn(int) -> Option<T>, n: nat)
    ensures
        first_some(f, n) is None <==> (forall|i: int| 0 <= i < n ==> (#[trigger] f(i)) is None),
        first_some(f, n) is Some ==> exists|i: int|
            0 <= i < n && #[trigger] f(i) == first_some(f, n) && (forall|j: int|
                0 <= j < i ==> (#[trigger] f(j)) is None),
    decreases n,
{
    if n > 0 {
        lemma_first_some(f, (n - 1) as nat);
        if first_some(f, (n - 1) as nat) is None {
            assert(first_some(f, n) == f(n - 1));
        }
    }
}

/// Extending the bound past a found value changes nothing.
pub proof fn lemma_first_some_stays<T>(f: spec_fn(int) -> Option<T>, m: nat, n: nat)
    requires
        m <= n,
        first_some(f, m) is Some,
    ensures
        first_some(f, n) == first_some(f, m),
    decreases n,
{
    if m < n {
        lemma_first_some_stays(f, m, (n - 1) as nat);
    }
}

/// How many of the indices below `n` have a property.
pub open spec fn count_below(p: spec_fn(int) -> bool, n: nat) -> nat
    decreases n,
{
    if n == 0 {
        0
    } else if p(n - 1) {
        count_below(p, (n - 1) as nat) + 1
    } else {
        count_below(p, (n - 1) as nat)
    }
}

/// An index with the property is counted above it.
pub proof fn lemma_count_below(p: spec_fn(int) -> bool, i: nat, n: nat)
    requires
        i < n,
    ensures
        count_below(p, i) <= count_below(p, n),
        p(i as int) ==> count_below(p, i) < count_below(p, n),
    decreases n,
{
    if i < n - 1 {
        lemma_count_below(p, i, (n - 1) as nat);
    }
}

fn push_digit(s: &mut String, d: u8)
    requires
        d < 16,
    ensures
        final(s)@ == old(s)@.push(digit_char(d)),
{
    let c = match d {
        0 => '0',
        1 => '1',
        2 => '2',
        3 => '3',
        4 => '4',
        5 => '5',
        6 => '6',
        7 => '7',
        8 => '8',
        9 => '9',
        10 => 'a',
        11 => 'b',
        12 => 'c',
        13 => 'd',
        14 => 'e',
        _ => 'f',
    };
    s.push(c);
}

fn push_digits(s: &mut String, n: u128, base: u128)
    requires
        2 <= base <= 16,
    ensures
        final(s)@ == old(s)@ + digits(n as nat, base as nat),
    decreases n,
{
    if n < base {
        push_digit(s, n as u8);
        assert(s@ == old(s)@ + digits(n as nat, base as nat));
    } else {
        proof {
            assert(n / base < n) by (nonlinear_arith)
                requires
                    n >= base,
                    base >= 2,
            ;
            assert(n % base < base) by (nonlinear_arith)
                requires
                    base >= 2,
            ;
        }
        push_digits(s, n / base, base);
        push_digit(s, (n % base) as u8);
        assert(s@ == old(s)@ + digits(n as nat, base as nat));
    }
}

/// Append the decimal text of `n`.
pub fn push_dec(s: &mut String, n: u128)
    ensures
        final(s)@ == old(s)@ + dec(n as nat),
{
    push_digits(s, n, 10);
}

/// Append the `0x`-prefixed hexadecimal text of `n`.
pub fn push_hex(s: &mut String, n: u64)
    ensures
        final(s)@ == old(s)@ + hex(n as nat),
{
    s.append("0x");
    push_digits(s, n as u128, 16);
    assert(s@ == old(s)@ + hex(n as nat));
}

/// Two texts one after the other.
pub fn join2(a: &str, b: &str) -> (r: String)
    ensures
        r@ == a@ + b@,
{
    let mut s = a.to_owned();
    s.append(b);
    s
}

/// Three texts one after the other.
pub fn join3(a: &str, b: &str, c: &str) -> (r: String)
    ensures
        r@ == a@ + b@ + c@,
{
    let mut s = a.to_owned();
    s.append(b);
    s.append(c);
    s
}

/// Five texts one after the other.
pub fn join5(a: &str, b: &str, c: &str, d: &str, e: &str) -> (r: String)
    ensures
        r@ == a@ + b@ + c@ + d@ + e@,
{
    let mut s = join3(a, b, c);
    s.append(d);
    s.append(e);
    s
}

/// A relative path below a directory, with one separator between them where
/// the directory does not end in one. Nothing is put before it where the
/// directory is empty.
pub open spec fn path_below(dir: Seq<char>, name: Seq<char>) -> Seq<char> {
    if dir.len() == 0 || dir.last() == '/' {
        dir + name
    } else {
        dir + "/"@ + name
    }
}

/// A relative path below a directory.
pub fn join_path(dir: &str, name: &str) -> (r: String)
    ensures
        r@ == path_below(dir@, name@),
{
    let n = dir.unicode_len();
    if n == 0 || dir.get_char(n - 1) == '/' {
        join2(dir, name)
    } else {
        join3(dir, "/", name)
    }
}

/// Whether two texts hold the same characters.
pub fn same_text(a: &str, b: &str) -> (r: bool)
    ensures
        r == (a@ == b@),
{
    a.to_owned() == b.to_owned()
}

/// Whether a text is among these.
pub open spec fn among(texts: Seq<String>, text: Seq<char>) -> bool {
    exists|k: int| 0 <= k < texts.len() && (#[trigger] texts[k])@ == text
}

/// Whether a text is among these.
pub fn is_among(texts: &Vec<String>, text: &str) -> (r: bool)
    ensures
        r == among(texts@, text@),
{
    let mut i: usize = 0;
    while i < texts.len()
        invariant
            i <= texts@.len(),
            forall|k: int| 0 <= k < i ==> (#[trigger] texts@[k])@ != text@,
        decreases texts@.len() - i,
    {
        if same_text(texts[i].as_str(), text) {
            return true;
        }
        i += 1;
    }
    false
}

/// The characters of each text.
pub open spec fn texts_of(texts: Seq<String>) -> Seq<Seq<char>> {
    texts.map_values(|s: String| s@)
}

/// The text of an optional string.
pub open spec fn text_of(s: Option<String>) -> Option<Seq<char>> {
    match s {
        Some(s) => Some(s@),
        None => None,
    }
}

/// Value of a digit.
pub open spec fn digit_value(c: char) -> nat {
    if '0' <= c <= '9' {
        (c as int - '0' as int) as nat
    } else if 'a' <= c <= 'f' {
        (c as int - 'a' as int + 10) as nat
    } else {
        0
    }
}

/// Value of a text in positional notation.
pub open spec fn number(text: Seq<char>, base: nat) -> nat
    decreases text.len(),
{
    if text.len() == 0 {
        0
    } else {
        number(text.drop_last(), base) * base + digit_value(text.last())
    }
}

/// A written number reads back as itself, in digits below its base, and
/// without leading zeros.
pub proof fn digits_read_back(n: nat, base: nat)
    requires
        2 <= base <= 16,
    ensures
        number(digits(n, base), base) == n,
        digits(n, base).len() > 0,
        n > 0 ==> digits(n, base)[0] != '0',
        n < base ==> digits(n, base).len() == 1,
        forall|i: int|
            0 <= i < digits(n, base).len() ==> {
                let c = #[trigger] digits(n, base)[i];
                digit_value(c) < base && ('0' <= c <= '9' || 'a' <= c <= 'f')
            },
    decreases n,
{
    let text = digits(n, base);
    if n < base {
        assert(text.drop_last() =~= seq![]);
        reveal_with_fuel(number, 2);
    } else {
        assert(n / base < n) by (nonlinear_arith)
            requires
                n >= base,
                base >= 2,
        ;
        assert(n / base > 0) by (nonlinear_arith)
            requires
                n >= base,
                base >= 2,
        ;
        assert(n % base < base && (n / base) * base + n % base == n) by (nonlinear_arith)
            requires
                base >= 2,
        ;
        digits_read_back(n / base, base);
        let before = digits(n / base, base);
        assert(text.drop_last() =~= before);
        assert forall|i: int| 0 <= i < text.len() implies {
            let c = #[trigger] text[i];
            digit_value(c) < base && ('0' <= c <= '9' || 'a' <= c <= 'f')
        } by {
            if i < before.len() {
                assert(text[i] == before[i]);
            }
        }
        assert(text[0] == before[0]);
    }
}

/// Different numbers are written differently, in decimal and in hexadecimal;
/// a hexadecimal text begins with its prefix.
pub proof fn numbers_are_told_apart(m: nat, n: nat)
    ensures
        dec(m) == dec(n) <==> m == n,
        hex(m) == hex(n) <==> m == n,
        hex(n).len() > 2,
        hex(n)[0] == '0',
        hex(n)[1] == 'x',
        number(dec(n), 10) == n,
        number(hex(n).skip(2), 16) == n,
{
    digits_read_back(m, 10);
    digits_read_back(n, 10);
    digits_read_back(m, 16);
    digits_read_back(n, 16);
    reveal_strlit("0x");
    assert(hex(m).skip(2) =~= digits(m, 16));
    assert(hex(n).skip(2) =~= digits(n, 16));
}

/// A path below a directory begins with the directory and ends with the name,
/// and one separator stands between them, which may be the directory's own.
/// Below the empty directory the name stands alone.
pub proof fn path_keeps_its_parts(dir: Seq<char>, name: Seq<char>)
    ensures
        ({
            let path = path_below(dir, name);
            &&& path.len() >= dir.len() + name.len()
            &&& path.take(dir.len() as int) == dir
            &&& path.skip(path.len() - name.len()) == name
            &&& dir.len() == 0 ==> path == name
            &&& dir.len() > 0 ==> path[path.len() - name.len() - 1] == '/'
            &&& dir.len() > 0 && dir.last() == '/' ==> path.len() == dir.len() + name.len()
            &&& dir.len() > 0 && dir.last() != '/' ==> path.len() == dir.len() + name.len() + 1
        }),
{
    reveal_strlit("/");
    let path = path_below(dir, name);
    assert(path.take(dir.len() as int) =~= dir);
    assert(path.skip(path.len() - name.len()) =~= name);
    if dir.len() == 0 {
        assert(path =~= name);
    }
}

/// A text is among others exactly when one of them holds the same characters.
pub proof fn text_is_among_its_equals(texts: Seq<String>, text: Seq<char>, i: int)
    ensures
        texts_of(texts).len() == texts.len(),
        0 <= i < texts.len() ==> texts_of(texts)[i] == texts[i]@,
        among(texts, text) <==> texts_of(texts).contains(text),
{
    if among(texts, text) {
        let k = choose|k: int| 0 <= k < texts.len() && (#[trigger] texts[k])@ == text;
        assert(texts_of(texts)[k] == text);
    }
    if texts_of(texts).contains(text) {
        let k = choose|k: int| 0 <= k < texts_of(texts).len() && texts_of(texts)[k] == text;
        assert(texts[k]@ == text);
    }
}

} // verus!
