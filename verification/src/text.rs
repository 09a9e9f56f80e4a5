//! Text primitives shared by the rest of the crate: decimal numbers,
//! joining, and case-insensitive search, each specified over `Seq<char>`.

use vstd::prelude::*;
use vstd::std_specs::iter::IteratorSpec;
use vstd::string::*;

verus! {

broadcast use vstd::string::group_string_axioms;

/// `c` is one of the ASCII digits `0` to `9`.
pub open spec fn is_digit(c: char) -> bool {
    '0' <= c && c <= '9'
}

/// The number an ASCII digit stands for.
pub open spec fn digit_value(c: char) -> nat {
    (c as u32 - '0' as u32) as nat
}

/// Every character of `s` is an ASCII digit.
pub open spec fn all_digits(s: Seq<char>) -> bool {
    forall|i: int| 0 <= i < s.len() ==> is_digit(#[trigger] s[i])
}

/// The number that a string of ASCII digits denotes in base ten.
/// The empty string denotes zero; leading zeros do not matter.
pub open spec fn decimal_value(s: Seq<char>) -> nat
    decreases s.len(),
{
    if s.len() == 0 {
        0
    } else {
        decimal_value(s.drop_last()) * 10 + digit_value(s.last())
    }
}

/// What reading `s` as an unsigned decimal number of at most `max` gives:
/// an optional `+`, then one or more ASCII digits and nothing else, whose
/// value does not exceed `max`.
pub open spec fn parsed_unsigned(s: Seq<char>, max: u64) -> Option<u64> {
    let digits = if s.len() > 0 && s[0] == '+' {
        s.drop_first()
    } else {
        s
    };
    if digits.len() > 0 && all_digits(digits) && decimal_value(digits) <= max {
        Some(decimal_value(digits) as u64)
    } else {
        None
    }
}

/// The digit character of a number below ten.
pub open spec fn digit_char(d: nat) -> char {
    if d == 0 {
        '0'
    } else if d == 1 {
        '1'
    } else if d == 2 {
        '2'
    } else if d == 3 {
        '3'
    } else if d == 4 {
        '4'
    } else if d == 5 {
        '5'
    } else if d == 6 {
        '6'
    } else if d == 7 {
        '7'
    } else if d == 8 {
        '8'
    } else {
        '9'
    }
}

/// The shortest decimal notation of `n`.
pub open spec fn decimal_text(n: nat) -> Seq<char>
    decreases n,
{
    if n < 10 {
        seq![digit_char(n)]
    } else {
        decimal_text(n / 10).push(digit_char(n % 10))
    }
}

/// `parts` written one after the other with `sep` between neighbours.
pub open spec fn joined(parts: Seq<Seq<char>>, sep: Seq<char>) -> Seq<char>
    decreases parts.len(),
{
    if parts.len() == 0 {
        Seq::empty()
    } else if parts.len() == 1 {
        parts[0]
    } else {
        joined(parts.drop_last(), sep) + sep + parts.last()
    }
}

/// The views of a vector of strings.
pub open spec fn views(v: Seq<String>) -> Seq<Seq<char>> {
    v.map_values(|s: String| s@)
}

/// `c` with the ASCII capitals mapped to their small letters.
pub open spec fn ascii_lower(c: char) -> char {
    if 'A' <= c && c <= 'Z' {
        ((c as u32 + 32) as u8) as char
    } else {
        c
    }
}

/// `needle` equals the lowered characters of `hay` from position `at` on.
pub open spec fn occurs_lowered_at(hay: Seq<char>, needle: Seq<char>, at: int) -> bool {
    &&& 0 <= at
    &&& at + needle.len() <= hay.len()
    &&& forall|j: int| 0 <= j < needle.len() ==> ascii_lower(#[trigger] hay[at + j]) == needle[j]
}

/// `needle` occurs somewhere in `hay` once the ASCII capitals of `hay` are
/// mapped to small letters.
pub open spec fn occurs_lowered(hay: Seq<char>, needle: Seq<char>) -> bool {
    exists|at: int| occurs_lowered_at(hay, needle, at)
}

/// The value of a digit string never drops when digits are appended.
pub proof fn lemma_decimal_value_prefix(s: Seq<char>, k: int)
    requires
        0 <= k <= s.len(),
    ensures
        decimal_value(s.take(k)) <= decimal_value(s),
    decreases s.len(),
{
    if k == s.len() {
        assert(s.take(k) =~= s);
    } else {
        lemma_decimal_value_prefix(s.drop_last(), k);
        assert(s.drop_last().take(k) =~= s.take(k));
    }
}

/// Reading one more digit multiplies by ten and adds the digit.
pub proof fn lemma_decimal_value_step(s: Seq<char>, k: int)
    requires
        0 <= k < s.len(),
    ensures
        decimal_value(s.take(k + 1)) == decimal_value(s.take(k)) * 10 + digit_value(s[k]),
{
    assert(s.take(k + 1).drop_last() =~= s.take(k));
}

/// The characters of `s`, in order.
pub fn chars_of(s: &str) -> (out: Vec<char>)
    ensures
        out@ == s@,
{
    let mut out: Vec<char> = Vec::new();
    let mut it = s.chars();
    loop
        invariant
            out@ + it.remaining() == s@,
            it.obeys_prophetic_iter_laws(),
            it.decrease() is Some,
        decreases it.decrease()->0,
    {
        let ghost before = it.remaining();
        match it.next() {
            Some(c) => {
                assert(out@.push(c) + before.drop_first() =~= out@ + before);
                out.push(c);
            },
            None => {
                assert(out@ + before =~= out@);
                return out;
            },
        }
    }
}

/// Tells whether `c` is an ASCII digit.
pub fn is_ascii_digit(c: char) -> (b: bool)
    ensures
        b == is_digit(c),
{
    c >= '0' && c <= '9'
}

/// The number that the ASCII digit `c` stands for.
pub fn digit_of(c: char) -> (d: u64)
    requires
        is_digit(c),
    ensures
        d == digit_value(c),
        d <= 9,
{
    (c as u32 - '0' as u32) as u64
}

/// `c` with an ASCII capital replaced by its small letter.
pub fn lower_of(c: char) -> (l: char)
    ensures
        l == ascii_lower(c),
{
    if c >= 'A' && c <= 'Z' {
        ((c as u32 + 32) as u8) as char
    } else {
        c
    }
}

/// Reads `text` as an unsigned decimal number no larger than `max`.
///
/// Accepts an optional leading `+` followed by at least one ASCII digit and
/// nothing else; anything else, and any value above `max`, gives `None`.
pub fn parse_unsigned(text: &str, max: u64) -> (r: Option<u64>)
    ensures
        r == parsed_unsigned(text@, max),
{
    let chars = chars_of(text);
    let start: usize = if chars.len() > 0 && chars[0] == '+' {
        1
    } else {
        0
    };
    let ghost digits = if text@.len() > 0 && text@[0] == '+' {
        text@.drop_first()
    } else {
        text@
    };
    assert(digits =~= chars@.skip(start as int));
    if start == chars.len() {
        return None;
    }
    let mut acc: u64 = 0;
    let mut i: usize = start;
    while i < chars.len()
        invariant
            start <= i <= chars.len(),
            digits == chars@.skip(start as int),
            digits == if text@.len() > 0 && text@[0] == '+' {
                text@.drop_first()
            } else {
                text@
            },
            all_digits(digits.take(i - start)),
            acc == decimal_value(digits.take(i - start)),
            acc <= max,
        decreases chars.len() - i,
    {
        let c = chars[i];
        let ghost k = i - start;
        assert(digits[k] == c);
        if !is_ascii_digit(c) {
            return None;
        }
        let d = digit_of(c);
        proof {
            lemma_decimal_value_step(digits, k);
            lemma_decimal_value_prefix(digits, k + 1);
        }
        // Past this point one more digit would take the value above `max`.
        if acc > max / 10 {
            return None;
        }
        let tens = acc * 10;
        if d > max - tens {
            return None;
        }
        acc = tens + d;
        i = i + 1;
        assert forall|j: int| 0 <= j < digits.take(i - start).len() implies is_digit(
            #[trigger] digits.take(i - start)[j],
        ) by {
            if j < k {
                assert(digits.take(k)[j] == digits.take(i - start)[j]);
            }
        }
    }
    assert(digits.take(i - start) =~= digits);
    Some(acc)
}

/// The text of one decimal digit.
fn digit_text(d: u64) -> (s: &'static str)
    requires
        d <= 9,
    ensures
        s@ == seq![digit_char(d as nat)],
{
    proof {
        reveal_strlit("0");
        reveal_strlit("1");
        reveal_strlit("2");
        reveal_strlit("3");
        reveal_strlit("4");
        reveal_strlit("5");
        reveal_strlit("6");
        reveal_strlit("7");
        reveal_strlit("8");
        reveal_strlit("9");
    }
    let s = if d == 0 {
        "0"
    } else if d == 1 {
        "1"
    } else if d == 2 {
        "2"
    } else if d == 3 {
        "3"
    } else if d == 4 {
        "4"
    } else if d == 5 {
        "5"
    } else if d == 6 {
        "6"
    } else if d == 7 {
        "7"
    } else if d == 8 {
        "8"
    } else {
        "9"
    };
    assert(s@ =~= seq![digit_char(d as nat)]);
    s
}

/// Appends the decimal notation of `n` to `out`.
pub fn append_decimal(out: &mut String, n: u64)
    ensures
        final(out)@ == old(out)@ + decimal_text(n as nat),
    decreases n,
{
    if n >= 10 {
        append_decimal(out, n / 10);
    }
    out.append(digit_text(n % 10));
    proof {
        if n >= 10 {
            assert(old(out)@ + decimal_text((n / 10) as nat) + seq![digit_char((n % 10) as nat)]
                =~= old(out)@ + decimal_text(n as nat));
        } else {
            assert(old(out)@ + seq![digit_char((n % 10) as nat)] =~= old(out)@ + decimal_text(
                n as nat,
            ));
        }
    }
}

/// Writes `parts` one after the other with `sep` between neighbours.
pub fn join(parts: &Vec<String>, sep: &str) -> (out: String)
    ensures
        out@ == joined(views(parts@), sep@),
{
    let mut out = String::new();
    let mut i: usize = 0;
    while i < parts.len()
        invariant
            i <= parts.len(),
            out@ == joined(views(parts@).take(i as int), sep@),
        decreases parts.len() - i,
    {
        let ghost shorter = views(parts@).take(i as int);
        let ghost longer = views(parts@).take(i + 1);
        proof {
            assert(longer.drop_last() =~= shorter);
            assert(longer.last() == parts@[i as int]@);
        }
        if i > 0 {
            out.append(sep);
        }
        out.append(parts[i].as_str());
        proof {
            if i == 0 {
                assert(out@ =~= longer[0]);
            }
        }
        i = i + 1;
    }
    assert(views(parts@).take(i as int) =~= views(parts@));
    out
}

/// Tells whether `needle` occurs in `hay` once the ASCII capitals of `hay`
/// are mapped to small letters.
pub fn contains_lowered(hay: &Vec<char>, needle: &Vec<char>) -> (found: bool)
    ensures
        found == occurs_lowered(hay@, needle@),
{
    if needle.len() > hay.len() {
        assert(forall|at: int| !occurs_lowered_at(hay@, needle@, at));
        return false;
    }
    let last: usize = hay.len() - needle.len();
    let mut at: usize = 0;
    while at <= last
        invariant
            last == hay.len() - needle.len(),
            at <= last + 1,
            forall|p: int| 0 <= p < at ==> !occurs_lowered_at(hay@, needle@, p),
        decreases last + 1 - at,
    {
        let mut j: usize = 0;
        while j < needle.len() && lower_of(hay[at + j]) == needle[j]
            invariant
                last == hay.len() - needle.len(),
                at <= last,
                j <= needle.len(),
                forall|q: int| 0 <= q < j ==> ascii_lower(#[trigger] hay@[at + q]) == needle@[q],
            decreases needle.len() - j,
        {
            j = j + 1;
        }
        if j == needle.len() {
            assert(occurs_lowered_at(hay@, needle@, at as int));
            return true;
        }
        assert(!occurs_lowered_at(hay@, needle@, at as int)) by {
            assert(ascii_lower(hay@[at + j]) != needle@[j as int]);
        }
        at = at + 1;
    }
    assert(forall|p: int| !occurs_lowered_at(hay@, needle@, p));
    false
}

/// `part` behind its length: the number of its characters in decimal, a
/// colon, and the characters themselves.
pub open spec fn sized(part: Seq<char>) -> Seq<char> {
    decimal_text(part.len()) + seq![':'] + part
}

/// Each of `parts` behind its length, one after the other. No two lists of
/// parts are written alike.
pub open spec fn sized_all(parts: Seq<Seq<char>>) -> Seq<char>
    decreases parts.len(),
{
    if parts.len() == 0 {
        Seq::empty()
    } else {
        sized_all(parts.drop_last()) + sized(parts.last())
    }
}

/// The decimal notation of a number consists of digits, at least one, and
/// denotes that number.
pub proof fn lemma_decimal_text(n: nat)
    ensures
        decimal_text(n).len() >= 1,
        all_digits(decimal_text(n)),
        decimal_value(decimal_text(n)) == n,
    decreases n,
{
    let text = decimal_text(n);
    if n < 10 {
        assert(text.drop_last() =~= Seq::<char>::empty());
        assert(decimal_value(text.drop_last()) == 0);
    } else {
        let front = decimal_text(n / 10);
        lemma_decimal_text(n / 10);
        assert(text.drop_last() =~= front);
        assert forall|i: int| 0 <= i < text.len() implies is_digit(#[trigger] text[i]) by {
            if i < front.len() {
                assert(text[i] == front[i]);
            }
        }
    }
}

/// What follows a sized part can be told from the part: two texts that
/// start with a sized part each are equal only if the parts are equal and
/// what follows them is.
pub proof fn lemma_sized_unique(a: Seq<char>, x: Seq<char>, b: Seq<char>, y: Seq<char>)
    requires
        sized(a) + x == sized(b) + y,
    ensures
        a == b,
        x == y,
{
    let da = decimal_text(a.len());
    let db = decimal_text(b.len());
    let left = sized(a) + x;
    let right = sized(b) + y;
    lemma_decimal_text(a.len());
    lemma_decimal_text(b.len());
    assert(left[da.len() as int] == ':');
    assert(right[db.len() as int] == ':');
    if da.len() < db.len() {
        assert(right[da.len() as int] == db[da.len() as int]);
        assert(is_digit(db[da.len() as int]));
        assert(false);
    }
    if db.len() < da.len() {
        assert(left[db.len() as int] == da[db.len() as int]);
        assert(is_digit(da[db.len() as int]));
        assert(false);
    }
    assert forall|i: int| 0 <= i < da.len() implies da[i] == db[i] by {
        assert(left[i] == da[i]);
        assert(right[i] == db[i]);
    }
    assert(da =~= db);
    assert(a.len() == b.len());
    let start: int = da.len() as int + 1;
    let end: int = start + a.len();
    assert(a =~= left.subrange(start, end));
    assert(b =~= right.subrange(start, end));
    assert(x =~= left.skip(end));
    assert(y =~= right.skip(end));
}

/// A list of sized parts starts with its first part.
pub proof fn lemma_sized_all_front(parts: Seq<Seq<char>>)
    requires
        parts.len() > 0,
    ensures
        sized_all(parts) == sized(parts[0]) + sized_all(parts.drop_first()),
    decreases parts.len(),
{
    if parts.len() == 1 {
        assert(parts.drop_last().len() == 0);
        assert(parts.drop_first().len() == 0);
        assert(sized_all(parts.drop_last()) =~= Seq::<char>::empty());
        assert(sized_all(parts) =~= sized(parts[0]) + sized_all(parts.drop_first()));
    } else {
        let shorter = parts.drop_last();
        lemma_sized_all_front(shorter);
        assert(shorter.drop_first() =~= parts.drop_first().drop_last());
        assert(shorter[0] == parts[0]);
        assert(parts.drop_first().last() == parts.last());
        assert(sized_all(parts) =~= sized(parts[0]) + sized_all(parts.drop_first()));
    }
}

/// Lists of parts that are written alike are alike: the writing determines
/// how many parts there are and what each of them is.
pub proof fn lemma_sized_all_unique(a: Seq<Seq<char>>, b: Seq<Seq<char>>)
    requires
        sized_all(a) == sized_all(b),
    ensures
        a == b,
    decreases a.len(),
{
    if a.len() == 0 {
        if b.len() > 0 {
            lemma_decimal_text(b.last().len());
            assert(sized(b.last()).len() > 0);
            assert(false);
        }
        assert(a =~= b);
    } else if b.len() == 0 {
        lemma_decimal_text(a.last().len());
        assert(sized(a.last()).len() > 0);
        assert(false);
    } else {
        lemma_sized_all_front(a);
        lemma_sized_all_front(b);
        lemma_sized_unique(a[0], sized_all(a.drop_first()), b[0], sized_all(b.drop_first()));
        lemma_sized_all_unique(a.drop_first(), b.drop_first());
        assert(a =~= seq![a[0]] + a.drop_first());
        assert(b =~= seq![b[0]] + b.drop_first());
    }
}

/// Writing one more part appends it, sized, to what is written.
pub proof fn lemma_sized_all_push(parts: Seq<Seq<char>>, part: Seq<char>)
    ensures
        sized_all(parts.push(part)) == sized_all(parts) + sized(part),
{
    assert(parts.push(part).drop_last() =~= parts);
}

/// Appends `part` to `out`, behind its length.
pub fn append_sized(out: &mut String, part: &str)
    ensures
        final(out)@ == old(out)@ + sized(part@),
{
    let length = part.unicode_len();
    append_decimal(out, length as u64);
    proof {
        reveal_strlit(":");
    }
    out.append(":");
    out.append(part);
    assert(out@ =~= old(out)@ + sized(part@)) by {
        assert(":"@ =~= seq![':']);
    }
}

} // verus!
