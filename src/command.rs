//! Commands typed at the host console.
use vstd::prelude::*;

verus! {

/// What the console loop does next.
#[derive(Debug, PartialEq)]
pub enum AppEvent {
    Quit,
    Idle,
    Input(String),
    SendPing(u16),
    SampleAdc(u8),
}

fn chars_of(input: &String) -> (r: Vec<char>)
    ensures
        r@ == input@,
{
    let mut out: Vec<char> = Vec::new();
    proof {
        broadcast use vstd::string::axiom_spec_iter;
    }
    for c in it: input.as_str().chars()
        invariant
            out@ == it.seq().take(it.index() as int),
    {
        out.push(c);
    }
    out
}

/// `char::is_whitespace`: the characters with the Unicode White_Space property.
pub open spec fn is_white_space(c: char) -> bool {
    let u = c as u32;
    (0x9 <= u <= 0xd) || u == 0x20 || u == 0x85 || u == 0xa0 || u == 0x1680 || (0x2000 <= u
        <= 0x200a) || u == 0x2028 || u == 0x2029 || u == 0x202f || u == 0x205f || u == 0x3000
}

/// The words of `s` from index `i` on, `current` being the part of a word
/// already read: maximal runs of characters that are not white space.
pub open spec fn words_from(s: Seq<char>, i: int, current: Seq<char>) -> Seq<Seq<char>>
    decreases s.len() - i,
{
    let done = if current.len() > 0 {
        seq![current]
    } else {
        Seq::<Seq<char>>::empty()
    };
    if i < 0 || i >= s.len() {
        done
    } else if is_white_space(s[i]) {
        done + words_from(s, i + 1, Seq::<char>::empty())
    } else {
        words_from(s, i + 1, current.push(s[i]))
    }
}

/// The white-space separated words of `s`, in order.
pub open spec fn words(s: Seq<char>) -> Seq<Seq<char>> {
    words_from(s, 0, Seq::<char>::empty())
}

pub open spec fn is_decimal_digit(c: char) -> bool {
    48 <= c as u32 <= 57
}

/// The value of a run of decimal digits.
pub open spec fn digits_value(t: Seq<char>) -> nat
    decreases t.len(),
{
    if t.len() == 0 {
        0
    } else {
        digits_value(t.drop_last()) * 10 + (t.last() as u32 - 48) as nat
    }
}

/// `t` without the one leading `+` that an unsigned number may carry.
pub open spec fn unsigned_digits(t: Seq<char>) -> Seq<char> {
    if t.len() > 0 && t[0] == '+' {
        t.drop_first()
    } else {
        t
    }
}

/// What `str::parse` gives for an unsigned integer type whose largest value
/// is `max`: an optional `+`, then one or more decimal digits whose value
/// fits.
pub open spec fn parse_unsigned(t: Seq<char>, max: nat) -> Option<nat> {
    let d = unsigned_digits(t);
    if d.len() > 0 && (forall|i: int| 0 <= i < d.len() ==> is_decimal_digit(d[i]))
        && digits_value(d) <= max {
        Some(digits_value(d))
    } else {
        None
    }
}

/// The event a console line asks for: `ping <u16>`, `adc <u8>` or `quit`
/// as its first word; nothing for an empty line, an unknown command, a
/// wrong number of arguments or an argument that does not parse.
pub open spec fn parse_command(line: Seq<char>) -> Option<AppEvent> {
    let w = words(line);
    if w.len() == 0 {
        None
    } else if w[0] == seq!['p', 'i', 'n', 'g'] {
        if w.len() == 2 {
            match parse_unsigned(w[1], 65535) {
                Some(n) => Some(AppEvent::SendPing(n as u16)),
                None => None,
            }
        } else {
            None
        }
    } else if w[0] == seq!['a', 'd', 'c'] {
        if w.len() == 2 {
            match parse_unsigned(w[1], 255) {
                Some(n) => Some(AppEvent::SampleAdc(n as u8)),
                None => None,
            }
        } else {
            None
        }
    } else if w[0] == seq!['q', 'u', 'i', 't'] {
        Some(AppEvent::Quit)
    } else {
        None
    }
}

fn white_space(c: char) -> (r: bool)
    ensures
        r == is_white_space(c),
{
    let u = c as u32;
    (0x9 <= u && u <= 0xd) || u == 0x20 || u == 0x85 || u == 0xa0 || u == 0x1680 || (0x2000 <= u
        && u <= 0x200a) || u == 0x2028 || u == 0x2029 || u == 0x202f || u == 0x205f || u == 0x3000
}

/// Views of a list of words.
pub open spec fn words_view(v: Seq<Vec<char>>) -> Seq<Seq<char>> {
    v.map_values(|w: Vec<char>| w@)
}

fn split_words(s: &Vec<char>) -> (r: Vec<Vec<char>>)
    ensures
        words_view(r@) == words(s@),
{
    let mut out: Vec<Vec<char>> = Vec::new();
    let mut current: Vec<char> = Vec::new();
    let mut i: usize = 0;
    while i < s.len()
        invariant
            i <= s.len(),
            words_view(out@) + words_from(s@, i as int, current@) == words(s@),
        decreases s.len() - i,
    {
        let c = s[i];
        if white_space(c) {
            if current.len() > 0 {
                let ghost before = out@;
                out.push(current);
                assert(words_view(out@) =~= words_view(before) + seq![current@]);
            }
            current = Vec::new();
        } else {
            current.push(c);
        }
        i = i + 1;
        assert(words_view(out@) + words_from(s@, i as int, current@) =~= words(s@));
    }
    if current.len() > 0 {
        let ghost before = out@;
        out.push(current);
        assert(words_view(out@) =~= words_view(before) + seq![current@]);
    }
    assert(words_view(out@) =~= words(s@));
    out
}

proof fn lemma_digits_value_grows(t: Seq<char>, k: int)
    requires
        0 <= k <= t.len(),
    ensures
        digits_value(t.subrange(0, k)) <= digits_value(t),
    decreases t.len() - k,
{
    if k < t.len() {
        lemma_digits_value_grows(t, k + 1);
        assert(t.subrange(0, k + 1).drop_last() =~= t.subrange(0, k));
    } else {
        assert(t.subrange(0, k) =~= t);
    }
}

/// `str::parse` for an unsigned integer type whose largest value is `max`.
fn parse_unsigned_exec(t: &Vec<char>, max: u32) -> (r: Option<u32>)
    requires
        max <= 65535,
    ensures
        match r {
            Some(n) => parse_unsigned(t@, max as nat) == Some(n as nat),
            None => parse_unsigned(t@, max as nat) is None,
        },
{
    let start: usize = if t.len() > 0 && t[0] == '+' {
        1
    } else {
        0
    };
    let ghost d = unsigned_digits(t@);
    assert(d =~= t@.subrange(start as int, t@.len() as int));
    if start >= t.len() {
        return None;
    }
    let mut i: usize = start;
    while i < t.len()
        invariant
            start <= i <= t.len(),
            d == t@.subrange(start as int, t@.len() as int),
            d == unsigned_digits(t@),
            forall|j: int| 0 <= j < i - start ==> is_decimal_digit(d[j]),
        decreases t.len() - i,
    {
        let u = t[i] as u32;
        if !(48 <= u && u <= 57) {
            assert(d[i - start] == t@[i as int]);
            assert(!is_decimal_digit(d[i - start]));
            assert(parse_unsigned(t@, max as nat) is None);
            return None;
        }
        i = i + 1;
    }
    let mut value: u32 = 0;
    let mut i: usize = start;
    while i < t.len()
        invariant
            start <= i <= t.len(),
            max <= 65535,
            d == t@.subrange(start as int, t@.len() as int),
            d == unsigned_digits(t@),
            forall|j: int| 0 <= j < d.len() ==> is_decimal_digit(d[j]),
            value as nat == digits_value(d.subrange(0, i - start)),
            value <= max,
        decreases t.len() - i,
    {
        assert(d[i - start] == t@[i as int]);
        assert(is_decimal_digit(d[i - start]));
        let digit = t[i] as u32 - 48;
        let ghost prefix = d.subrange(0, i + 1 - start);
        assert(prefix.drop_last() =~= d.subrange(0, i - start));
        assert(prefix.last() == t@[i as int]);
        assert(digits_value(prefix) == digits_value(prefix.drop_last()) * 10 + digit);
        assert(value * 10 + digit <= 655359) by (nonlinear_arith)
            requires
                value <= 65535,
                digit <= 9,
        ;
        if value * 10 + digit > max {
            proof {
                lemma_digits_value_grows(d, i + 1 - start);
            }
            assert(parse_unsigned(t@, max as nat) is None);
            return None;
        }
        value = value * 10 + digit;
        i = i + 1;
    }
    assert(d.subrange(0, d.len() as int) =~= d);
    Some(value)
}

fn is_word(w: &Vec<char>, expected: &[char]) -> (r: bool)
    ensures
        r == (w@ == expected@),
{
    if w.len() != expected.len() {
        return false;
    }
    let mut i: usize = 0;
    while i < w.len()
        invariant
            i <= w.len() == expected@.len(),
            forall|j: int| 0 <= j < i ==> w@[j] == expected@[j],
        decreases w.len() - i,
    {
        if w[i] != expected[i] {
            return false;
        }
        i = i + 1;
    }
    assert(w@ =~= expected@);
    true
}

/// Reads a console line as a command: `ping <u16>`, `adc <u8>` or `quit`,
/// words separated by white space. Anything else gives `None`.
pub fn try_parse(input: &String) -> (r: Option<AppEvent>)
    ensures
        r == parse_command(input@),
{
    let chars = chars_of(input);
    let w = split_words(&chars);
    assert(w@.len() == words(input@).len());
    if w.len() == 0 {
        return None;
    }
    assert(w@[0]@ == words(input@)[0]);
    let ping: [char; 4] = ['p', 'i', 'n', 'g'];
    let adc: [char; 3] = ['a', 'd', 'c'];
    let quit: [char; 4] = ['q', 'u', 'i', 't'];
    assert(ping@ =~= seq!['p', 'i', 'n', 'g']);
    assert(adc@ =~= seq!['a', 'd', 'c']);
    assert(quit@ =~= seq!['q', 'u', 'i', 't']);
    if is_word(&w[0], ping.as_slice()) {
        if w.len() == 2 {
            assert(w@[1]@ == words(input@)[1]);
            match parse_unsigned_exec(&w[1], 65535) {
                Some(n) => Some(AppEvent::SendPing(n as u16)),
                None => None,
            }
        } else {
            None
        }
    } else if is_word(&w[0], adc.as_slice()) {
        if w.len() == 2 {
            assert(w@[1]@ == words(input@)[1]);
            match parse_unsigned_exec(&w[1], 255) {
                Some(n) => Some(AppEvent::SampleAdc(n as u8)),
                None => None,
            }
        } else {
            None
        }
    } else if is_word(&w[0], quit.as_slice()) {
        Some(AppEvent::Quit)
    } else {
        None
    }
}

} // verus!


