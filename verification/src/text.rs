//! Plain text, as sequences of characters.
//!
//! Contracts elsewhere speak of the characters a string holds, so everything
//! here goes by characters too: what is white space, what a number looks like,
//! where a line ends and which of two names comes first.

use vstd::prelude::*;
use vstd::slice::slice_subrange;
use vstd::string::*;

verus! {

/// `String::push` appends the given character at the end of the string and
/// leaves what was there before as it is.
pub assume_specification[ String::push ](s: &mut String, c: char)
    ensures
        final(s)@ == old(s)@.push(c),
;

/// The characters of a string, in order.
pub fn chars_of(s: &str) -> (chars: Vec<char>)
    ensures
        chars@ == s@,
{
    let mut chars: Vec<char> = Vec::new();
    for c in it: s.chars()
        invariant
            it.seq() == s@,
            chars@ == s@.take(it.index()),
    {
        proof {
            assert(s@.take(it.index() + 1) == s@.take(it.index()).push(s@[it.index()]));
        }
        chars.push(c);
    }
    proof {
        assert(s@.take(s@.len() as int) == s@);
    }
    chars
}

/// The string that consists of the given characters.
pub fn string_of(chars: &[char]) -> (s: String)
    ensures
        s@ == chars@,
{
    let mut s = String::new();
    let mut i: usize = 0;
    while i < chars.len()
        invariant
            i <= chars@.len(),
            s@ == chars@.take(i as int),
        decreases chars@.len() - i,
    {
        proof {
            assert(chars@.take(i + 1) == chars@.take(i as int).push(chars@[i as int]));
        }
        s.push(chars[i]);
        i += 1;
    }
    proof {
        assert(chars@.take(i as int) == chars@);
    }
    s
}

/// Do two strings hold the same characters?
pub fn same(a: &str, b: &str) -> (r: bool)
    ensures
        r == (a@ == b@),
{
    a.to_owned() == b.to_owned()
}

/// `a` and `b` joined.
pub fn joined(a: &str, b: &str) -> (r: String)
    ensures
        r@ == a@ + b@,
{
    let mut r = String::from_str(a);
    r.append(b);
    r
}

/// What an optional string holds.
pub open spec fn opt_view(s: Option<String>) -> Option<Seq<char>> {
    match s {
        Some(s) => Some(s@),
        None => None,
    }
}

/// What an optional string slice holds.
pub open spec fn str_view(s: Option<&str>) -> Option<Seq<char>> {
    match s {
        Some(s) => Some(s@),
        None => None,
    }
}

/// An optional string, borrowed.
pub fn as_str(s: &Option<String>) -> (r: Option<&str>)
    ensures
        str_view(r) == opt_view(*s),
{
    match s {
        Some(s) => Some(s.as_str()),
        None => None,
    }
}

/// What each string of a list holds.
pub open spec fn views(s: Seq<String>) -> Seq<Seq<char>> {
    Seq::new(s.len(), |i: int| s[i]@)
}

/// A copy of an optional string.
pub fn clone_opt(s: &Option<String>) -> (r: Option<String>)
    ensures
        opt_view(r) == opt_view(*s),
{
    match s {
        Some(s) => Some(s.clone()),
        None => None,
    }
}

/// A copy of a list of strings.
pub fn clone_strings(s: &Vec<String>) -> (r: Vec<String>)
    ensures
        views(r@) == views(s@),
{
    let mut r: Vec<String> = Vec::new();
    let mut i: usize = 0;
    while i < s.len()
        invariant
            i <= s@.len(),
            r@.len() == i,
            forall|k: int| 0 <= k < i ==> r@[k]@ == s@[k]@,
        decreases s@.len() - i,
    {
        r.push(s[i].clone());
        i += 1;
    }
    proof {
        assert(views(r@) =~= views(s@));
    }
    r
}

// ---------------------------------------------------------------------------
// Numbers

/// A decimal digit as a character.
pub open spec fn digit(d: nat) -> char {
    (48 + d) as char
}

/// A number in decimal, without leading zeros.
pub open spec fn dec(n: nat) -> Seq<char>
    decreases n,
{
    if n < 10 {
        seq![digit(n)]
    } else {
        dec(n / 10).push(digit(n % 10))
    }
}

/// A hexadecimal digit in lower case.
pub open spec fn hex_digit(d: nat) -> char {
    if d < 10 {
        (48 + d) as char
    } else {
        (87 + d) as char
    }
}

/// A byte in hexadecimal without leading zeros.
pub open spec fn hex(n: u8) -> Seq<char> {
    if n < 16 {
        seq![hex_digit(n as nat)]
    } else {
        seq![hex_digit((n / 16) as nat), hex_digit((n % 16) as nat)]
    }
}

/// A byte in two hexadecimal digits.
pub open spec fn hex2(n: u8) -> Seq<char> {
    seq![hex_digit((n / 16) as nat), hex_digit((n % 16) as nat)]
}

fn hex_char(d: u8) -> (c: char)
    requires
        d < 16,
    ensures
        c == hex_digit(d as nat),
{
    if d < 10 {
        (48 + d) as char
    } else {
        (87 + d) as char
    }
}

/// Append a number in decimal.
pub fn push_dec(out: &mut String, n: u64)
    ensures
        final(out)@ == old(out)@ + dec(n as nat),
    decreases n,
{
    if n >= 10 {
        push_dec(out, n / 10);
    }
    out.push((48 + (n % 10) as u8) as char);
}

/// A number in decimal.
pub fn decimal(n: u64) -> (r: String)
    ensures
        r@ == dec(n as nat),
{
    let mut r = String::new();
    push_dec(&mut r, n);
    r
}

/// Append a byte in hexadecimal, as short as it goes.
pub fn push_hex(out: &mut String, n: u8)
    ensures
        final(out)@ == old(out)@ + hex(n),
{
    if n >= 16 {
        out.push(hex_char(n / 16));
    }
    out.push(hex_char(n % 16));
}

/// Append a byte in two hexadecimal digits.
pub fn push_hex2(out: &mut String, n: u8)
    ensures
        final(out)@ == old(out)@ + hex2(n),
{
    out.push(hex_char(n / 16));
    out.push(hex_char(n % 16));
}

/// What a character counts for as a digit, in bases up to sixteen.
pub open spec fn digit_value(c: char, radix: nat) -> Option<nat> {
    let v = if '0' <= c <= '9' {
        (c as nat - 48) as nat
    } else if 'a' <= c <= 'f' {
        (c as nat - 87) as nat
    } else if 'A' <= c <= 'F' {
        (c as nat - 55) as nat
    } else {
        16
    };
    if v < radix {
        Some(v)
    } else {
        None
    }
}

/// What a run of digits spells, or nothing when one of them is no digit.
pub open spec fn digits_value(s: Seq<char>, radix: nat) -> Option<nat>
    decreases s.len(),
{
    if s.len() == 0 {
        Some(0)
    } else {
        match (digits_value(s.drop_last(), radix), digit_value(s.last(), radix)) {
            (Some(v), Some(d)) => Some(v * radix + d),
            _ => None,
        }
    }
}

/// A number as Rust reads one: an optional plus, then at least one digit, and
/// no more than `max`.
pub open spec fn unsigned(s: Seq<char>, radix: nat, max: nat) -> Option<nat> {
    let body = if s.len() > 0 && s[0] == '+' {
        s.drop_first()
    } else {
        s
    };
    match digits_value(body, radix) {
        Some(v) => if body.len() > 0 && v <= max {
            Some(v)
        } else {
            None
        },
        None => None,
    }
}

fn value_of(c: char, radix: u64) -> (r: Option<u64>)
    requires
        radix <= 16,
    ensures
        match r {
            Some(v) => digit_value(c, radix as nat) == Some(v as nat) && v < radix,
            None => digit_value(c, radix as nat) is None,
        },
{
    let v: u64 = if '0' <= c && c <= '9' {
        c as u64 - 48
    } else if 'a' <= c && c <= 'f' {
        c as u64 - 87
    } else if 'A' <= c && c <= 'F' {
        c as u64 - 55
    } else {
        16
    };
    if v < radix {
        Some(v)
    } else {
        None
    }
}

/// Digits that already spell too much never spell less by going on.
proof fn lemma_digits_grow(s: Seq<char>, n: int, radix: nat)
    requires
        0 <= n <= s.len(),
        radix >= 1,
        digits_value(s, radix) is Some,
    ensures
        digits_value(s.take(n), radix) is Some,
        digits_value(s.take(n), radix)->0 <= digits_value(s, radix)->0,
    decreases s.len(),
{
    if n == s.len() {
        assert(s.take(n) == s);
    } else {
        lemma_digits_grow(s.drop_last(), n, radix);
        assert(s.drop_last().take(n) == s.take(n));
        let v = digits_value(s.drop_last(), radix)->0;
        assert(v * radix >= v) by (nonlinear_arith)
            requires
                radix >= 1,
        ;
    }
}

/// Read a number in base ten or sixteen, as `from_str_radix` would.
pub fn read_unsigned(s: &[char], radix: u64, max: u64) -> (r: Option<u64>)
    requires
        2 <= radix <= 16,
        max <= 0x8000_0000_0000_0000,
    ensures
        match r {
            Some(v) => unsigned(s@, radix as nat, max as nat) == Some(v as nat),
            None => unsigned(s@, radix as nat, max as nat) is None,
        },
{
    let body = if s.len() > 0 && s[0] == '+' {
        slice_subrange(s, 1, s.len())
    } else {
        s
    };
    let ghost text = if s@.len() > 0 && s@[0] == '+' {
        s@.drop_first()
    } else {
        s@
    };
    proof {
        assert(body@ =~= text);
    }
    if body.len() == 0 {
        return None;
    }
    let mut acc: u128 = 0;
    let mut i: usize = 0;
    while i < body.len()
        invariant
            body@ == text,
            i <= body@.len(),
            2 <= radix <= 16,
            max <= 0x8000_0000_0000_0000,
            acc <= max,
            digits_value(text.take(i as int), radix as nat) == Some(acc as nat),
            unsigned(s@, radix as nat, max as nat) == (match digits_value(text, radix as nat) {
                Some(v) => if v <= max {
                    Some(v)
                } else {
                    None
                },
                None => None,
            }),
        decreases body@.len() - i,
    {
        let ghost next = text.take(i + 1);
        proof {
            assert(next.drop_last() =~= text.take(i as int));
            assert(next.last() == text[i as int]);
            if digits_value(text, radix as nat) is Some {
                lemma_digits_grow(text, i + 1, radix as nat);
            }
            assert(acc * radix <= 0x8000_0000_0000_0000 * 16) by (nonlinear_arith)
                requires
                    acc <= 0x8000_0000_0000_0000,
                    radix <= 16,
            ;
        }
        match value_of(body[i], radix) {
            Some(d) => {
                acc = acc * (radix as u128) + d as u128;
                if acc > max as u128 {
                    return None;
                }
            },
            None => {
                return None;
            },
        }
        i += 1;
    }
    proof {
        assert(text.take(i as int) == text);
    }
    Some(acc as u64)
}

// ---------------------------------------------------------------------------
// White space

/// The characters Unicode counts as white space.
pub open spec fn white(c: char) -> bool {
    ||| 9 <= c as u32 <= 13
    ||| c as u32 == 0x20
    ||| c as u32 == 0x85
    ||| c as u32 == 0xA0
    ||| c as u32 == 0x1680
    ||| 0x2000 <= c as u32 <= 0x200A
    ||| c as u32 == 0x2028
    ||| c as u32 == 0x2029
    ||| c as u32 == 0x202F
    ||| c as u32 == 0x205F
    ||| c as u32 == 0x3000
}

fn is_white(c: char) -> (r: bool)
    ensures
        r == white(c),
{
    let u: u32 = c as u32;
    (9 <= u && u <= 13) || u == 0x20 || u == 0x85 || u == 0xA0 || u == 0x1680 || (0x2000 <= u && u
        <= 0x200A) || u == 0x2028 || u == 0x2029 || u == 0x202F || u == 0x205F || u == 0x3000
}

/// Without the white space in front.
pub open spec fn trim_start(s: Seq<char>) -> Seq<char>
    decreases s.len(),
{
    if s.len() > 0 && white(s[0]) {
        trim_start(s.drop_first())
    } else {
        s
    }
}

/// Without the white space behind.
pub open spec fn trim_end(s: Seq<char>) -> Seq<char>
    decreases s.len(),
{
    if s.len() > 0 && white(s.last()) {
        trim_end(s.drop_last())
    } else {
        s
    }
}

/// Without the white space at either end.
pub open spec fn trim(s: Seq<char>) -> Seq<char> {
    trim_end(trim_start(s))
}

/// Cut the white space off both ends.
pub fn trimmed(s: &[char]) -> (r: &[char])
    ensures
        r@ == trim(s@),
{
    let mut from: usize = 0;
    proof {
        assert(s@.skip(0) =~= s@);
    }
    while from < s.len() && is_white(s[from])
        invariant
            from <= s@.len(),
            trim_start(s@) == trim_start(s@.skip(from as int)),
        decreases s@.len() - from,
    {
        proof {
            assert(s@.skip(from as int).drop_first() =~= s@.skip(from + 1));
        }
        from += 1;
    }
    let mut to: usize = s.len();
    let ghost start = s@.skip(from as int);
    proof {
        assert(trim_start(s@) == start);
        assert(start.take(to - from) =~= start);
    }
    while to > from && is_white(s[to - 1])
        invariant
            from <= to <= s@.len(),
            start == s@.skip(from as int),
            trim_end(start) == trim_end(start.take(to - from)),
        decreases to - from,
    {
        proof {
            let cut = start.take(to - from);
            assert(cut.last() == s@[to - 1]);
            assert(cut.drop_last() =~= start.take(to - 1 - from));
        }
        to -= 1;
    }
    proof {
        let cut = start.take(to - from);
        assert(cut.len() > 0 ==> cut.last() == s@[to - 1]);
        assert(s@.subrange(from as int, to as int) =~= cut);
    }
    slice_subrange(s, from, to)
}

/// Cut the white space off both ends of a string.
pub fn trimmed_string(s: &str) -> (r: String)
    ensures
        r@ == trim(s@),
{
    let chars = chars_of(s);
    string_of(trimmed(chars.as_slice()))
}

/// Is there nothing but white space?
pub fn is_blank(s: &str) -> (r: bool)
    ensures
        r == (trim(s@).len() == 0),
{
    let chars = chars_of(s);
    trimmed(chars.as_slice()).len() == 0
}

// ---------------------------------------------------------------------------
// Cutting up

/// Does `s` begin with `prefix`?
pub open spec fn begins(s: Seq<char>, prefix: Seq<char>) -> bool {
    prefix.len() <= s.len() && s.take(prefix.len() as int) == prefix
}

/// Does `s` end with `suffix`?
pub open spec fn ends(s: Seq<char>, suffix: Seq<char>) -> bool {
    suffix.len() <= s.len() && s.skip(s.len() - suffix.len()) == suffix
}

/// Does a slice of characters begin with a given text?
pub fn begins_with(s: &[char], prefix: &str) -> (r: bool)
    ensures
        r == begins(s@, prefix@),
{
    let p = chars_of(prefix);
    if p.len() > s.len() {
        return false;
    }
    let mut i: usize = 0;
    while i < p.len()
        invariant
            i <= p@.len() <= s@.len(),
            p@ == prefix@,
            forall|k: int| 0 <= k < i ==> s@[k] == p@[k],
        decreases p@.len() - i,
    {
        if s[i] != p[i] {
            proof {
                assert(s@.take(p@.len() as int)[i as int] != p@[i as int]);
            }
            return false;
        }
        i += 1;
    }
    proof {
        assert(s@.take(p@.len() as int) =~= p@);
    }
    true
}

/// Does a slice of characters end with a given text?
pub fn ends_with(s: &[char], suffix: &str) -> (r: bool)
    ensures
        r == ends(s@, suffix@),
{
    let p = chars_of(suffix);
    if p.len() > s.len() {
        return false;
    }
    let from = s.len() - p.len();
    let tail = slice_subrange(s, from, s.len());
    proof {
        assert(tail@ =~= s@.skip(from as int));
        assert(tail@.take(tail@.len() as int) =~= tail@);
    }
    begins_with(tail, suffix)
}

/// Where a character first occurs from a position on, or the end.
pub open spec fn next_at(s: Seq<char>, from: int, c: char) -> int
    decreases s.len() - from,
{
    if from < 0 || from >= s.len() {
        s.len() as int
    } else if s[from] == c {
        from
    } else {
        next_at(s, from + 1, c)
    }
}

/// The first occurrence lies where it says, and nowhere before.
pub proof fn lemma_next_at(s: Seq<char>, from: int, c: char)
    requires
        0 <= from <= s.len(),
    ensures
        from <= next_at(s, from, c) <= s.len(),
        next_at(s, from, c) < s.len() ==> s[next_at(s, from, c)] == c,
        forall|k: int| from <= k < next_at(s, from, c) ==> s[k] != c,
    decreases s.len() - from,
{
    if from < s.len() && s[from] != c {
        lemma_next_at(s, from + 1, c);
    }
}

/// Find a character from a position on; the length when there is none.
pub fn find_from(s: &[char], from: usize, c: char) -> (at: usize)
    requires
        from <= s@.len(),
    ensures
        at == next_at(s@, from as int, c),
        from <= at <= s@.len(),
{
    let mut i = from;
    while i < s.len() && s[i] != c
        invariant
            from <= i <= s@.len(),
            next_at(s@, from as int, c) == next_at(s@, i as int, c),
        decreases s@.len() - i,
    {
        i += 1;
    }
    i
}

// ---------------------------------------------------------------------------
// Order

/// Which of two texts comes first, character by character. Strings compare the
/// same way: UTF-8 keeps the order of code points.
pub open spec fn precedes(a: Seq<char>, b: Seq<char>) -> bool
    decreases a.len(),
{
    b.len() > 0 && (a.len() == 0 || a[0] < b[0] || (a[0] == b[0] && precedes(
        a.drop_first(),
        b.drop_first(),
    )))
}

/// Two texts with the same first character differ, if at all, in the rest.
proof fn lemma_same_head(a: Seq<char>, b: Seq<char>)
    requires
        a.len() > 0,
        b.len() > 0,
        a[0] == b[0],
    ensures
        a == b <==> a.drop_first() == b.drop_first(),
{
    if a.drop_first() == b.drop_first() {
        assert(a =~= seq![a[0]] + a.drop_first());
        assert(b =~= seq![b[0]] + b.drop_first());
    }
}

/// Nothing comes before itself.
pub proof fn lemma_precedes_irreflexive(a: Seq<char>)
    ensures
        !precedes(a, a),
    decreases a.len(),
{
    if a.len() > 0 {
        lemma_precedes_irreflexive(a.drop_first());
    }
}

/// The order carries over: what comes before something comes before whatever
/// follows it.
pub proof fn lemma_precedes_transitive(a: Seq<char>, b: Seq<char>, c: Seq<char>)
    requires
        precedes(a, b),
        precedes(b, c),
    ensures
        precedes(a, c),
    decreases a.len(),
{
    if a.len() > 0 && a[0] == b[0] && b[0] == c[0] {
        lemma_precedes_transitive(a.drop_first(), b.drop_first(), c.drop_first());
    }
}

/// Of two different texts one comes first.
pub proof fn lemma_precedes_total(a: Seq<char>, b: Seq<char>)
    ensures
        a == b || precedes(a, b) || precedes(b, a),
    decreases a.len(),
{
    if a.len() == 0 {
        if b.len() == 0 {
            assert(a =~= b);
        }
    } else if b.len() > 0 && a[0] == b[0] {
        lemma_same_head(a, b);
        lemma_precedes_total(a.drop_first(), b.drop_first());
    }
}

/// What two texts share in front has no say in their order.
pub proof fn lemma_precedes_behind(front: Seq<char>, a: Seq<char>, b: Seq<char>)
    ensures
        precedes(front + a, front + b) == precedes(a, b),
    decreases front.len(),
{
    if front.len() == 0 {
        assert(front + a =~= a);
        assert(front + b =~= b);
    } else {
        lemma_precedes_behind(front.drop_first(), a, b);
        assert((front + a).drop_first() =~= front.drop_first() + a);
        assert((front + b).drop_first() =~= front.drop_first() + b);
    }
}

/// Does `a` come before `b`?
pub fn comes_before(a: &str, b: &str) -> (r: bool)
    ensures
        r == precedes(a@, b@),
{
    let a = chars_of(a);
    let b = chars_of(b);
    let mut i: usize = 0;
    proof {
        assert(a@.skip(0) =~= a@);
        assert(b@.skip(0) =~= b@);
    }
    while i < a.len() && i < b.len() && a[i] == b[i]
        invariant
            i <= a@.len(),
            i <= b@.len(),
            precedes(a@, b@) == precedes(a@.skip(i as int), b@.skip(i as int)),
        decreases a@.len() - i,
    {
        proof {
            assert(a@.skip(i as int).drop_first() =~= a@.skip(i + 1));
            assert(b@.skip(i as int).drop_first() =~= b@.skip(i + 1));
        }
        i += 1;
    }
    i < b.len() && (i == a.len() || a[i] < b[i])
}

/// Put a name where it belongs, behind any that do not come after it.
pub open spec fn filed(names: Seq<Seq<char>>, name: Seq<char>) -> Seq<Seq<char>>
    decreases names.len(),
{
    if names.len() == 0 || !precedes(name, names.last()) {
        names.push(name)
    } else {
        filed(names.drop_last(), name).push(names.last())
    }
}

/// Names in order.
pub open spec fn in_order(names: Seq<Seq<char>>) -> Seq<Seq<char>>
    decreases names.len(),
{
    if names.len() == 0 {
        names
    } else {
        filed(in_order(names.drop_last()), names.last())
    }
}

/// No name comes before one that stands in front of it.
pub open spec fn alphabetical(names: Seq<Seq<char>>) -> bool {
    forall|i: int, j: int|
        0 <= i < j < names.len() ==> !precedes(#[trigger] names[j], #[trigger] names[i])
}

proof fn lemma_filed(names: Seq<Seq<char>>, name: Seq<char>)
    requires
        alphabetical(names),
    ensures
        alphabetical(filed(names, name)),
        filed(names, name).len() == names.len() + 1,
        filed(names, name).to_multiset() == names.to_multiset().insert(name),
        forall|i: int|
            0 <= i < filed(names, name).len() ==> {
                let n = #[trigger] filed(names, name)[i];
                n == name || names.contains(n)
            },
    decreases names.len(),
{
    broadcast use vstd::seq_lib::group_to_multiset_ensures;

    if names.len() == 0 || !precedes(name, names.last()) {
        let r = names.push(name);
        assert forall|i: int, j: int| 0 <= i < j < r.len() implies !precedes(
            #[trigger] r[j],
            #[trigger] r[i],
        ) by {
            if j == names.len() {
                let last = names.last();
                if i < names.len() - 1 {
                    assert(!precedes(names[names.len() - 1], names[i]));
                    if precedes(name, names[i]) {
                        lemma_precedes_total(names[i], last);
                        if names[i] != last {
                            lemma_precedes_transitive(name, names[i], last);
                        }
                    }
                }
            }
        }
        assert forall|i: int| 0 <= i < r.len() implies {
            let n = #[trigger] r[i];
            n == name || names.contains(n)
        } by {
            if i < names.len() {
                assert(r[i] == names[i]);
            }
        }
    } else {
        let rest = names.drop_last();
        let last = names.last();
        assert(alphabetical(rest)) by {
            assert forall|i: int, j: int| 0 <= i < j < rest.len() implies !precedes(
                #[trigger] rest[j],
                #[trigger] rest[i],
            ) by {
                assert(!precedes(names[j], names[i]));
            }
        }
        lemma_filed(rest, name);
        let inner = filed(rest, name);
        let r = inner.push(last);
        assert forall|i: int, j: int| 0 <= i < j < r.len() implies !precedes(
            #[trigger] r[j],
            #[trigger] r[i],
        ) by {
            if j == inner.len() {
                let n = inner[i];
                if n == name {
                    if precedes(last, name) {
                        lemma_precedes_transitive(last, name, last);
                        lemma_precedes_irreflexive(last);
                    }
                } else {
                    let k = choose|k: int| 0 <= k < rest.len() && rest[k] == n;
                    assert(!precedes(names[names.len() - 1], names[k]));
                }
            } else {
                assert(!precedes(inner[j], inner[i]));
            }
        }
        assert forall|i: int| 0 <= i < r.len() implies {
            let n = #[trigger] r[i];
            n == name || names.contains(n)
        } by {
            if i < inner.len() {
                let n = inner[i];
                assert(r[i] == n);
                if n != name {
                    let k = choose|k: int| 0 <= k < rest.len() && rest[k] == n;
                    assert(names[k] == n);
                }
            } else {
                assert(names[names.len() - 1] == last);
            }
        }
        assert(names =~= rest.push(last));
        assert(r.to_multiset() =~= names.to_multiset().insert(name));
    }
}

/// Putting names in order leaves every one of them in, and adds none.
pub proof fn law_ordering_keeps_every_name(names: Seq<Seq<char>>)
    ensures
        alphabetical(in_order(names)),
        in_order(names).to_multiset() == names.to_multiset(),
        in_order(names).len() == names.len(),
    decreases names.len(),
{
    broadcast use vstd::seq_lib::group_to_multiset_ensures;

    if names.len() > 0 {
        law_ordering_keeps_every_name(names.drop_last());
        lemma_filed(in_order(names.drop_last()), names.last());
        assert(names =~= names.drop_last().push(names.last()));
    }
}

fn file(names: &mut Vec<String>, name: String)
    ensures
        views(final(names)@) == filed(views(old(names)@), name@),
{
    let mut at: usize = names.len();
    let ghost all = views(names@);
    proof {
        assert(all.take(at as int) =~= all);
        assert(filed(all, name@) =~= filed(all.take(at as int), name@) + all.skip(at as int));
    }
    while at > 0 && comes_before(name.as_str(), names[at - 1].as_str())
        invariant
            at <= names@.len(),
            *names == *old(names),
            all == views(names@),
            filed(all, name@) == filed(all.take(at as int), name@) + all.skip(at as int),
        decreases at,
    {
        proof {
            let cut = all.take(at as int);
            assert(cut.last() == all[at - 1]);
            assert(cut.drop_last() =~= all.take(at - 1));
            assert(filed(cut, name@) == filed(all.take(at - 1), name@).push(all[at - 1]));
            assert(filed(all.take(at - 1), name@).push(all[at - 1]) + all.skip(at as int)
                =~= filed(all.take(at - 1), name@) + all.skip(at - 1));
        }
        at -= 1;
    }
    let ghost text = name@;
    proof {
        let cut = all.take(at as int);
        if at > 0 {
            assert(cut.last() == all[at - 1]);
        }
        assert(filed(cut, text) == cut.push(text));
        assert(all.insert(at as int, text) =~= cut.push(text) + all.skip(at as int));
    }
    names.insert(at, name);
    proof {
        assert(views(names@) =~= all.insert(at as int, text));
    }
}

/// Put names in order.
pub fn sort_names(names: Vec<String>) -> (r: Vec<String>)
    ensures
        views(r@) == in_order(views(names@)),
{
    let mut done: Vec<String> = Vec::new();
    let mut i: usize = 0;
    let ghost all = views(names@);
    proof {
        assert(all.take(0) =~= Seq::<Seq<char>>::empty());
        assert(views(done@) =~= Seq::<Seq<char>>::empty());
    }
    while i < names.len()
        invariant
            i <= names@.len(),
            all == views(names@),
            views(done@) == in_order(all.take(i as int)),
        decreases names@.len() - i,
    {
        proof {
            let next = all.take(i + 1);
            assert(next.drop_last() =~= all.take(i as int));
            assert(next.last() == names@[i as int]@);
        }
        file(&mut done, names[i].clone());
        i += 1;
    }
    proof {
        assert(all.take(i as int) =~= all);
    }
    done
}

/// Put the place of a name where it belongs among places already in order,
/// behind those of names that do not come after it.
pub open spec fn slotted(names: Seq<Seq<char>>, order: Seq<int>, i: int) -> Seq<int>
    decreases order.len(),
{
    if order.len() == 0 || !precedes(names[i], names[order.last()]) {
        order.push(i)
    } else {
        slotted(names, order.drop_last(), i).push(order.last())
    }
}

/// The places of the first `n` names, in the order of the names. Those of equal
/// names stay in the order they came.
pub open spec fn ranked_to(names: Seq<Seq<char>>, n: int) -> Seq<int>
    decreases n,
{
    if n <= 0 {
        Seq::empty()
    } else {
        slotted(names, ranked_to(names, n - 1), n - 1)
    }
}

/// The places of all names, in the order of the names.
pub open spec fn ranked(names: Seq<Seq<char>>) -> Seq<int> {
    ranked_to(names, names.len() as int)
}

/// The names at a run of places.
pub open spec fn at_places(names: Seq<Seq<char>>, order: Seq<int>) -> Seq<Seq<char>> {
    Seq::new(order.len(), |k: int| names[order[k]])
}

proof fn lemma_slotted(names: Seq<Seq<char>>, order: Seq<int>, i: int)
    ensures
        slotted(names, order, i).len() == order.len() + 1,
        slotted(names, order, i).to_multiset() == order.to_multiset().insert(i),
        at_places(names, slotted(names, order, i)) == filed(at_places(names, order), names[i]),
    decreases order.len(),
{
    broadcast use vstd::seq_lib::group_to_multiset_ensures;

    let all = at_places(names, order);
    if order.len() == 0 || !precedes(names[i], names[order.last()]) {
        assert(at_places(names, order.push(i)) =~= all.push(names[i]));
    } else {
        let rest = order.drop_last();
        lemma_slotted(names, rest, i);
        let inner = slotted(names, rest, i);
        assert(all.drop_last() =~= at_places(names, rest));
        assert(at_places(names, inner.push(order.last())) =~= at_places(names, inner).push(
            names[order.last()],
        ));
        assert(order =~= rest.push(order.last()));
        assert(inner.push(order.last()).to_multiset() =~= order.to_multiset().insert(i));
    }
}

proof fn lemma_ranked_to(names: Seq<Seq<char>>, n: int)
    requires
        0 <= n <= names.len(),
    ensures
        ranked_to(names, n).len() == n,
        at_places(names, ranked_to(names, n)) == in_order(names.take(n)),
        forall|i: int|
            ranked_to(names, n).to_multiset().count(i) == (if 0 <= i < n {
                1nat
            } else {
                0nat
            }),
        forall|k: int| 0 <= k < n ==> 0 <= #[trigger] ranked_to(names, n)[k] < n,
    decreases n,
{
    broadcast use vstd::seq_lib::group_to_multiset_ensures;

    if n > 0 {
        let before = ranked_to(names, n - 1);
        lemma_ranked_to(names, n - 1);
        lemma_slotted(names, before, n - 1);
        assert(names.take(n).drop_last() =~= names.take(n - 1));
        assert(names.take(n).last() == names[n - 1]);
    } else {
        assert(at_places(names, ranked_to(names, n)) =~= names.take(0));
    }
    let r = ranked_to(names, n);
    assert forall|k: int| 0 <= k < r.len() implies 0 <= #[trigger] r[k] < n by {
        assert(r.contains(r[k]));
        assert(r.to_multiset().count(r[k]) > 0);
    }
}

/// Ranking names puts them in order, and gives every place exactly once.
pub proof fn law_ranking_orders_every_name(names: Seq<Seq<char>>)
    ensures
        ranked(names).len() == names.len(),
        at_places(names, ranked(names)) == in_order(names),
        alphabetical(at_places(names, ranked(names))),
        forall|k: int| 0 <= k < names.len() ==> 0 <= #[trigger] ranked(names)[k] < names.len(),
        forall|i: int|
            0 <= i < names.len() ==> #[trigger] ranked(names).to_multiset().count(i) == 1,
{
    lemma_ranked_to(names, names.len() as int);
    law_ordering_keeps_every_name(names);
    assert(names.take(names.len() as int) =~= names);
}

/// Places as the whole numbers they are.
pub open spec fn places(order: Seq<usize>) -> Seq<int> {
    Seq::new(order.len(), |k: int| order[k] as int)
}

fn slot(names: &Vec<String>, order: &mut Vec<usize>, i: usize)
    requires
        i < names@.len(),
        forall|k: int| 0 <= k < old(order)@.len() ==> #[trigger] old(order)@[k] < names@.len(),
    ensures
        places(final(order)@) == slotted(views(names@), places(old(order)@), i as int),
{
    let ghost all = places(order@);
    let ghost texts = views(names@);
    let ghost this = i as int;
    let mut at: usize = order.len();
    proof {
        assert(all.take(at as int) =~= all);
        assert(slotted(texts, all, this) =~= slotted(texts, all.take(at as int), this) + all.skip(
            at as int,
        ));
    }
    while at > 0 && comes_before(names[i].as_str(), names[order[at - 1]].as_str())
        invariant
            at <= order@.len(),
            *order == *old(order),
            all == places(order@),
            texts == views(names@),
            this == i,
            i < names@.len(),
            forall|k: int| 0 <= k < order@.len() ==> #[trigger] order@[k] < names@.len(),
            slotted(texts, all, this) == slotted(texts, all.take(at as int), this) + all.skip(
                at as int,
            ),
        decreases at,
    {
        proof {
            let cut = all.take(at as int);
            assert(cut.last() == order@[at - 1]);
            assert(cut.drop_last() =~= all.take(at - 1));
            assert(texts[cut.last()] == names@[order@[at - 1] as int]@);
            assert(slotted(texts, cut, this) == slotted(texts, all.take(at - 1), this).push(
                all[at - 1],
            ));
            assert(slotted(texts, all.take(at - 1), this).push(all[at - 1]) + all.skip(at as int)
                =~= slotted(texts, all.take(at - 1), this) + all.skip(at - 1));
        }
        at -= 1;
    }
    proof {
        let cut = all.take(at as int);
        if at > 0 {
            assert(cut.last() == order@[at - 1]);
            assert(texts[cut.last()] == names@[order@[at - 1] as int]@);
        }
        assert(slotted(texts, cut, this) == cut.push(this));
        assert(all.insert(at as int, this) =~= cut.push(this) + all.skip(at as int));
    }
    order.insert(at, i);
    proof {
        assert(places(order@) =~= all.insert(at as int, this));
    }
}

/// Find the order of names without moving them: the place of the first, then of
/// the second, and so on.
pub fn rank(names: &Vec<String>) -> (order: Vec<usize>)
    ensures
        places(order@) == ranked(views(names@)),
        order@.len() == names@.len(),
        forall|k: int| 0 <= k < order@.len() ==> #[trigger] order@[k] < names@.len(),
{
    let mut order: Vec<usize> = Vec::new();
    let mut i: usize = 0;
    let ghost texts = views(names@);
    proof {
        assert(places(order@) =~= Seq::<int>::empty());
    }
    while i < names.len()
        invariant
            i <= names@.len(),
            texts == views(names@),
            places(order@) == ranked_to(texts, i as int),
            order@.len() == i,
            forall|k: int| 0 <= k < order@.len() ==> #[trigger] order@[k] < names@.len(),
        decreases names@.len() - i,
    {
        slot(names, &mut order, i);
        i += 1;
        proof {
            lemma_ranked_to(texts, i as int);
            assert(places(order@).len() == order@.len());
            assert forall|k: int| 0 <= k < order@.len() implies #[trigger] order@[k]
                < names@.len() by {
                assert(ranked_to(texts, i as int)[k] == places(order@)[k]);
            }
        }
    }
    order
}

// ---------------------------------------------------------------------------
// What goes out comes back

/// A number written in decimal reads back as itself, as long as it is no more
/// than what is accepted.
pub proof fn law_decimals_read_back(n: nat, max: nat)
    ensures
        unsigned(dec(n), 10, max) == (if n <= max {
            Some(n)
        } else {
            None
        }),
        dec(n).len() > 0,
        n > 0 ==> dec(n)[0] != '0',
{
    lemma_decimal_digits(n);
}

proof fn lemma_decimal_digits(n: nat)
    ensures
        digits_value(dec(n), 10) == Some(n),
        dec(n).len() > 0,
        '0' <= dec(n)[0] <= '9',
        n > 0 ==> dec(n)[0] != '0',
    decreases n,
{
    let s = dec(n);
    if n < 10 {
        assert(s.drop_last() =~= Seq::<char>::empty());
        assert(digits_value(s.drop_last(), 10) == Some(0nat));
        assert(digit_value(digit(n), 10) == Some(n));
    } else {
        lemma_decimal_digits(n / 10);
        assert(s.drop_last() =~= dec(n / 10));
        assert(digit_value(digit(n % 10), 10) == Some(n % 10));
    }
}

/// A number in decimal starts with a digit.
pub proof fn law_decimals_start_with_a_digit(n: nat)
    ensures
        dec(n).len() > 0,
        '0' <= dec(n)[0] <= '9',
{
    lemma_decimal_digits(n);
}

/// A byte written in hexadecimal reads back as itself, with or without a
/// leading zero.
pub proof fn law_bytes_read_back(n: u8)
    ensures
        unsigned(hex2(n), 16, 255) == Some(n as nat),
        hex2(n).len() == 2,
        unsigned(hex(n), 16, 255) == Some(n as nat),
        hex(n).len() == (if n < 16 {
            1int
        } else {
            2
        }),
{
    let high = (n / 16) as nat;
    let low = (n % 16) as nat;
    let s = hex2(n);
    assert(digit_value(hex_digit(high), 16) == Some(high));
    assert(digit_value(hex_digit(low), 16) == Some(low));
    assert(s.drop_last() =~= seq![hex_digit(high)]);
    assert(s.drop_last().drop_last() =~= Seq::<char>::empty());
    assert(digits_value(s.drop_last().drop_last(), 16) == Some(0nat));
    assert(digits_value(s.drop_last(), 16) == Some(high));
    assert(digits_value(s, 16) == Some(high * 16 + low));
    if n < 16 {
        let t = hex(n);
        assert(t.drop_last() =~= Seq::<char>::empty());
        assert(digits_value(t.drop_last(), 16) == Some(0nat));
        assert(digits_value(t, 16) == Some(low));
    }
}

/// Of a number every digit counts: behind the ones read so far, one more
/// multiplies by the base and adds itself, and a character that is no digit
/// spoils it wherever it stands. A plus in front changes nothing.
pub proof fn law_digits_add_up(s: Seq<char>, c: char, radix: nat, max: nat)
    requires
        2 <= radix <= 16,
    ensures
        digits_value(Seq::empty(), radix) == Some(0nat),
        digits_value(s.push(c), radix) == (match (digits_value(s, radix), digit_value(c, radix)) {
            (Some(v), Some(d)) => Some(v * radix + d),
            _ => None,
        }),
        s.len() > 0 && s[0] != '+' ==> unsigned(seq!['+'] + s, radix, max) == unsigned(
            s,
            radix,
            max,
        ),
        unsigned(Seq::empty(), radix, max) is None,
        unsigned(seq!['+'], radix, max) is None,
        s.len() > 0 && s[0] != '+' ==> (unsigned(s, radix, max) matches Some(v) ==> digits_value(
            s,
            radix,
        ) == Some(v) && v <= max),
        s.len() > 0 && s[0] != '+' ==> (digits_value(s, radix) matches Some(v) ==> v <= max
            ==> unsigned(s, radix, max) == Some(v)),
{
    assert(s.push(c).drop_last() =~= s);
    assert((seq!['+'] + s).drop_first() =~= s);
    assert(seq!['+'].drop_first() =~= Seq::<char>::empty());
}

/// Digits count from zero on, letters go on where they end in either case, and
/// nothing counts for as much as the base.
pub proof fn law_digit_values(c: char, radix: nat)
    requires
        2 <= radix <= 16,
    ensures
        digit_value(c, radix) matches Some(v) ==> v < radix && ('0' <= c <= '9' && v == c as nat
            - '0' as nat || 'a' <= c <= 'f' && v == 10 + c as nat - 'a' as nat || 'A' <= c <= 'F'
            && v == 10 + c as nat - 'A' as nat),
        '0' <= c <= '9' && (c as nat - '0' as nat) < radix ==> digit_value(c, radix) is Some,
        radix == 16 && ('a' <= c <= 'f' || 'A' <= c <= 'F') ==> digit_value(c, radix) is Some,
{
}

/// Trimming cuts a run of white space off either end and nothing else, and
/// leaves none there.
pub proof fn law_trimming_cuts_white_ends(s: Seq<char>)
    ensures
        exists|from: int, to: int|
            0 <= from <= to <= s.len() && trim(s) == #[trigger] s.subrange(from, to) && (forall|
                i: int,
            |
                0 <= i < from || to <= i < s.len() ==> white(#[trigger] s[i])),
        trim(s).len() > 0 ==> !white(trim(s)[0]) && !white(trim(s).last()),
{
    lemma_trim_start(s);
    let start = trim_start(s);
    lemma_trim_end(start);
    let from = s.len() - start.len();
    let to = from + trim_end(start).len();
    assert(trim(s) =~= s.subrange(from, to));
    assert forall|i: int| 0 <= i < from || to <= i < s.len() implies white(#[trigger] s[i]) by {
        if to <= i {
            assert(s[i] == start[i - from]);
        }
    }
    if trim(s).len() > 0 {
        assert(trim(s)[0] == start[0]);
    }
}

proof fn lemma_trim_start(s: Seq<char>)
    ensures
        trim_start(s).len() <= s.len(),
        trim_start(s) == s.skip(s.len() - trim_start(s).len()),
        forall|i: int| 0 <= i < s.len() - trim_start(s).len() ==> white(#[trigger] s[i]),
        trim_start(s).len() > 0 ==> !white(trim_start(s)[0]),
    decreases s.len(),
{
    if s.len() > 0 && white(s[0]) {
        let rest = s.drop_first();
        lemma_trim_start(rest);
        assert(trim_start(s) =~= s.skip(s.len() - trim_start(s).len()));
        assert forall|i: int| 0 <= i < s.len() - trim_start(s).len() implies white(
            #[trigger] s[i],
        ) by {
            if i > 0 {
                assert(s[i] == rest[i - 1]);
            }
        }
    } else {
        assert(s.skip(0) =~= s);
    }
}

proof fn lemma_trim_end(s: Seq<char>)
    ensures
        trim_end(s).len() <= s.len(),
        trim_end(s) == s.take(trim_end(s).len() as int),
        forall|i: int| trim_end(s).len() <= i < s.len() ==> white(#[trigger] s[i]),
        trim_end(s).len() > 0 ==> !white(trim_end(s).last()),
    decreases s.len(),
{
    if s.len() > 0 && white(s.last()) {
        let rest = s.drop_last();
        lemma_trim_end(rest);
        assert(trim_end(s) =~= s.take(trim_end(s).len() as int));
        assert forall|i: int| trim_end(s).len() <= i < s.len() implies white(#[trigger] s[i]) by {
            if i < rest.len() {
                assert(s[i] == rest[i]);
            }
        }
    } else {
        assert(s.take(s.len() as int) =~= s);
    }
}

/// The white space of plain text is the blank, the tab and what ends lines and
/// pages. Beyond that there are blanks of other widths and other ends of lines
/// and paragraphs, and nothing else.
pub proof fn law_white_space_is_blank(c: char)
    ensures
        (c as u32) < 0x80 ==> (white(c) <==> c == ' ' || 9 <= c as u32 <= 13),
        0x80 <= c as u32 && (c as u32) < 0x2000 ==> (white(c) <==> c as u32 == 0x85 || c as u32
            == 0xA0 || c as u32 == 0x1680),
        0x2000 <= c as u32 && (c as u32) < 0x2030 ==> (white(c) <==> c as u32 <= 0x200A
            || c as u32 == 0x2028 || c as u32 == 0x2029 || c as u32 == 0x202F),
        c as u32 >= 0x2030 ==> (white(c) <==> c as u32 == 0x205F || c as u32 == 0x3000),
{
}

/// Of two texts the one that comes first is the one that ends first, or has the
/// lower character where they first differ.
pub proof fn law_order_is_decided_where_texts_differ(a: Seq<char>, b: Seq<char>, n: int)
    requires
        0 <= n <= a.len(),
        n <= b.len(),
        a.take(n) == b.take(n),
    ensures
        n == a.len() && n < b.len() ==> precedes(a, b),
        n == b.len() ==> !precedes(a, b),
        n < a.len() && n < b.len() && a[n] < b[n] ==> precedes(a, b),
        n < a.len() && n < b.len() && a[n] > b[n] ==> !precedes(a, b),
{
    let front = a.take(n);
    lemma_precedes_behind(front, a.skip(n), b.skip(n));
    assert(front + a.skip(n) =~= a);
    assert(front + b.skip(n) =~= b);
}

/// A text begins with what stands in front of it and ends with what stands
/// behind it.
pub proof fn law_joined_texts_begin_and_end(front: Seq<char>, back: Seq<char>, other: Seq<char>)
    ensures
        begins(front + back, front),
        ends(front + back, back),
        begins(front, other) ==> exists|rest: Seq<char>| front == #[trigger] (other + rest),
        ends(back, other) ==> exists|rest: Seq<char>| back == #[trigger] (rest + other),
{
    assert((front + back).take(front.len() as int) =~= front);
    assert((front + back).skip((front + back).len() - back.len()) =~= back);
    if begins(front, other) {
        assert(front =~= other + front.skip(other.len() as int));
    }
    if ends(back, other) {
        assert(back =~= back.take(back.len() - other.len()) + other);
    }
}

} // verus!
