//! Verified text utilities: trimming, case folding, decimal rendering and
//! parsing, list rendering, and line-ending handling.

use vstd::prelude::*;

verus! {

/// Relies on String::push: appends exactly the given character.
#[verifier::external_body]
pub(crate) fn push_char(s: &mut String, c: char)
    ensures
        final(s)@ == old(s)@.push(c),
{
    s.push(c);
}

/// The Unicode white-space characters, the set `str::trim` removes.
pub open spec fn is_space(c: char) -> bool {
    ||| c == ' '
    ||| c == '\t'
    ||| c == '\n'
    ||| c == '\u{0b}'
    ||| c == '\u{0c}'
    ||| c == '\r'
    ||| c == '\u{85}'
    ||| c == '\u{a0}'
    ||| c == '\u{1680}'
    ||| ('\u{2000}' <= c && c <= '\u{200a}')
    ||| c == '\u{2028}'
    ||| c == '\u{2029}'
    ||| c == '\u{202f}'
    ||| c == '\u{205f}'
    ||| c == '\u{3000}'
}

fn is_space_exec(c: char) -> (b: bool)
    ensures
        b == is_space(c),
{
    c == ' ' || c == '\t' || c == '\n' || c == '\u{0b}' || c == '\u{0c}' || c == '\r'
        || c == '\u{85}' || c == '\u{a0}' || c == '\u{1680}'
        || ('\u{2000}' <= c && c <= '\u{200a}') || c == '\u{2028}' || c == '\u{2029}'
        || c == '\u{202f}' || c == '\u{205f}' || c == '\u{3000}'
}

pub open spec fn drop_leading_spaces(s: Seq<char>) -> Seq<char>
    decreases s.len(),
{
    if s.len() > 0 && is_space(s[0]) {
        drop_leading_spaces(s.drop_first())
    } else {
        s
    }
}

pub open spec fn drop_trailing_spaces(s: Seq<char>) -> Seq<char>
    decreases s.len(),
{
    if s.len() > 0 && is_space(s.last()) {
        drop_trailing_spaces(s.drop_last())
    } else {
        s
    }
}

/// What `str::trim` returns: the string without leading and trailing white space.
pub open spec fn spec_trim(s: Seq<char>) -> Seq<char> {
    drop_trailing_spaces(drop_leading_spaces(s))
}

proof fn lemma_drop_leading_prefix(s: Seq<char>, i: int)
    requires
        0 <= i <= s.len(),
        forall|j: int| 0 <= j < i ==> is_space(#[trigger] s[j]),
        i < s.len() ==> !is_space(s[i]),
    ensures
        drop_leading_spaces(s) == s.skip(i),
    decreases i,
{
    if i == 0 {
        assert(s.skip(0) == s);
    } else {
        assert(is_space(s[0]));
        lemma_drop_leading_prefix(s.drop_first(), i - 1);
        assert(s.drop_first().skip(i - 1) == s.skip(i));
    }
}

proof fn lemma_drop_trailing_suffix(s: Seq<char>, i: int)
    requires
        0 <= i <= s.len(),
        forall|j: int| i <= j < s.len() ==> is_space(#[trigger] s[j]),
        i > 0 ==> !is_space(s[i - 1]),
    ensures
        drop_trailing_spaces(s) == s.take(i),
    decreases s.len() - i,
{
    if i == s.len() {
        assert(s.take(i) == s);
    } else {
        assert(is_space(s.last()));
        lemma_drop_trailing_suffix(s.drop_last(), i);
        assert(s.drop_last().take(i) == s.take(i));
    }
}

/// The string without leading and trailing white space, as `str::trim` gives it.
pub fn trim_str(s: &str) -> (r: String)
    ensures
        r@ == spec_trim(s@),
{
    let len = s.unicode_len();
    let mut start: usize = 0;
    while start < len && is_space_exec(s.get_char(start))
        invariant
            0 <= start <= len,
            len == s@.len(),
            forall|j: int| 0 <= j < start ==> is_space(#[trigger] s@[j]),
        decreases len - start,
    {
        start = start + 1;
    }
    let mut end: usize = len;
    while end > start && is_space_exec(s.get_char(end - 1))
        invariant
            start <= end <= len,
            len == s@.len(),
            forall|j: int| 0 <= j < start ==> is_space(#[trigger] s@[j]),
            start < len ==> !is_space(s@[start as int]),
            forall|j: int| end <= j < len ==> is_space(#[trigger] s@[j]),
        decreases end,
    {
        end = end - 1;
    }
    proof {
        lemma_drop_leading_prefix(s@, start as int);
        if end == start {
            lemma_drop_trailing_suffix(s@.skip(start as int), 0);
        } else {
            lemma_drop_trailing_suffix(s@.skip(start as int), end - start);
        }
        assert(s@.skip(start as int).take(end - start) == s@.subrange(
            start as int,
            end as int,
        ));
    }
    let piece = s.substring_char(start, end);
    piece.to_owned()
}

/// True when the string is empty once trimmed, the test the editors use
/// to fall back to a default or to reject an empty entry.
pub fn is_blank(s: &str) -> (r: bool)
    ensures
        r == (spec_trim(s@).len() == 0),
{
    let t = trim_str(s);
    t.as_str().unicode_len() == 0
}

/// ASCII case folding of one character, as `char::to_ascii_lowercase` folds it.
pub open spec fn lower_char(c: char) -> char {
    if c == 'A' { 'a' } else if c == 'B' { 'b' } else if c == 'C' { 'c' }
    else if c == 'D' { 'd' } else if c == 'E' { 'e' } else if c == 'F' { 'f' }
    else if c == 'G' { 'g' } else if c == 'H' { 'h' } else if c == 'I' { 'i' }
    else if c == 'J' { 'j' } else if c == 'K' { 'k' } else if c == 'L' { 'l' }
    else if c == 'M' { 'm' } else if c == 'N' { 'n' } else if c == 'O' { 'o' }
    else if c == 'P' { 'p' } else if c == 'Q' { 'q' } else if c == 'R' { 'r' }
    else if c == 'S' { 's' } else if c == 'T' { 't' } else if c == 'U' { 'u' }
    else if c == 'V' { 'v' } else if c == 'W' { 'w' } else if c == 'X' { 'x' }
    else if c == 'Y' { 'y' } else if c == 'Z' { 'z' } else { c }
}

fn lower_char_exec(c: char) -> (r: char)
    ensures
        r == lower_char(c),
{
    match c {
        'A' => 'a', 'B' => 'b', 'C' => 'c', 'D' => 'd', 'E' => 'e', 'F' => 'f',
        'G' => 'g', 'H' => 'h', 'I' => 'i', 'J' => 'j', 'K' => 'k', 'L' => 'l',
        'M' => 'm', 'N' => 'n', 'O' => 'o', 'P' => 'p', 'Q' => 'q', 'R' => 'r',
        'S' => 's', 'T' => 't', 'U' => 'u', 'V' => 'v', 'W' => 'w', 'X' => 'x',
        'Y' => 'y', 'Z' => 'z', _ => c,
    }
}

/// ASCII case folding of a whole string.
pub open spec fn lower_seq(s: Seq<char>) -> Seq<char> {
    s.map_values(|c: char| lower_char(c))
}

/// The string with every ASCII upper-case letter folded to lower case,
/// as `str::to_ascii_lowercase` gives it.
pub fn ascii_lower(s: &str) -> (r: String)
    ensures
        r@ == lower_seq(s@),
{
    let len = s.unicode_len();
    let mut out = String::new();
    let mut i: usize = 0;
    while i < len
        invariant
            0 <= i <= len,
            len == s@.len(),
            out@ == lower_seq(s@.take(i as int)),
        decreases len - i,
    {
        let c = lower_char_exec(s.get_char(i));
        push_char(&mut out, c);
        proof {
            assert(s@.take(i + 1).map_values(|c: char| lower_char(c)) == s@.take(
                i as int,
            ).map_values(|c: char| lower_char(c)).push(lower_char(s@[i as int])));
        }
        i = i + 1;
    }
    proof {
        assert(s@.take(len as int) == s@);
    }
    out
}

/// Equality of two strings up to ASCII case.
pub fn eq_ignore_ascii_case(a: &str, b: &str) -> (r: bool)
    ensures
        r == (lower_seq(a@) == lower_seq(b@)),
{
    let la = ascii_lower(a);
    let lb = ascii_lower(b);
    la == lb
}

/// The character for one decimal digit.
pub open spec fn digit_char(d: int) -> char {
    if d == 0 { '0' } else if d == 1 { '1' } else if d == 2 { '2' }
    else if d == 3 { '3' } else if d == 4 { '4' } else if d == 5 { '5' }
    else if d == 6 { '6' } else if d == 7 { '7' } else if d == 8 { '8' }
    else { '9' }
}

/// The decimal rendering of a natural number, most significant digit first.
pub open spec fn dec_rep(n: nat) -> Seq<char>
    decreases n,
{
    if n < 10 {
        seq![digit_char(n as int)]
    } else {
        dec_rep(n / 10).push(digit_char((n % 10) as int))
    }
}

/// The decimal rendering of a signed number: a minus sign before the digits
/// of the magnitude when it is negative.
pub open spec fn dec_rep_signed(n: int) -> Seq<char> {
    if n >= 0 {
        dec_rep(n as nat)
    } else {
        seq!['-'].add(dec_rep((-n) as nat))
    }
}

fn digit_char_exec(d: u64) -> (c: char)
    requires
        d < 10,
    ensures
        c == digit_char(d as int),
{
    match d {
        0 => '0', 1 => '1', 2 => '2', 3 => '3', 4 => '4',
        5 => '5', 6 => '6', 7 => '7', 8 => '8', _ => '9',
    }
}

fn append_dec_u64(out: &mut String, n: u64)
    ensures
        final(out)@ == old(out)@ + dec_rep(n as nat),
    decreases n,
{
    if n < 10 {
        push_char(out, digit_char_exec(n));
    } else {
        append_dec_u64(out, n / 10);
        push_char(out, digit_char_exec(n % 10));
    }
}

/// The decimal rendering of an unsigned number, as `u64`'s `Display` gives it.
pub fn u64_to_string(n: u64) -> (r: String)
    ensures
        r@ == dec_rep(n as nat),
{
    let mut out = String::new();
    append_dec_u64(&mut out, n);
    proof {
        assert(Seq::<char>::empty() + dec_rep(n as nat) == dec_rep(n as nat));
    }
    out
}

/// The decimal rendering of a signed number, as `i64`'s `Display` gives it.
pub fn i64_to_string(n: i64) -> (r: String)
    ensures
        r@ == dec_rep_signed(n as int),
{
    let mut out = String::new();
    if n < 0 {
        push_char(&mut out, '-');
        let mag: u64 = if n == i64::MIN {
            9223372036854775808u64
        } else {
            (-n) as u64
        };
        assert(mag == -(n as int));
        append_dec_u64(&mut out, mag);
        proof {
            assert(Seq::<char>::empty().push('-') + dec_rep(mag as nat) == seq!['-'].add(
                dec_rep((-(n as int)) as nat),
            ));
        }
    } else {
        append_dec_u64(&mut out, n as u64);
        proof {
            assert(Seq::<char>::empty() + dec_rep(n as nat) == dec_rep(n as nat));
        }
    }
    out
}

pub open spec fn is_digit(c: char) -> bool {
    '0' <= c && c <= '9'
}

pub open spec fn digit_val(c: char) -> int {
    c as int - '0' as int
}

pub open spec fn all_digits(s: Seq<char>) -> bool {
    forall|i: int| 0 <= i < s.len() ==> is_digit(#[trigger] s[i])
}

/// The value of a sequence of decimal digits, most significant first.
pub open spec fn dec_val(s: Seq<char>) -> nat
    decreases s.len(),
{
    if s.len() == 0 {
        0
    } else {
        (dec_val(s.drop_last()) * 10 + digit_val(s.last())) as nat
    }
}

/// What `str::parse::<u32>` returns on an already trimmed string: an optional
/// leading `+`, then at least one decimal digit, with a value that fits in `u32`.
pub open spec fn spec_parse_u32(s: Seq<char>) -> Option<u32> {
    let body = if s.len() > 0 && s[0] == '+' {
        s.drop_first()
    } else {
        s
    };
    if body.len() > 0 && all_digits(body) && dec_val(body) <= u32::MAX {
        Some(dec_val(body) as u32)
    } else {
        None
    }
}

proof fn lemma_dec_val_grows(s: Seq<char>)
    requires
        s.len() > 0,
        all_digits(s),
    ensures
        dec_val(s) >= dec_val(s.drop_last()),
{
    assert(is_digit(s.last()));
    assert(dec_val(s.drop_last()) * 10 >= dec_val(s.drop_last())) by (nonlinear_arith);
}

fn is_digit_exec(c: char) -> (b: bool)
    ensures
        b == is_digit(c),
{
    '0' <= c && c <= '9'
}

fn digit_val_exec(c: char) -> (d: u64)
    requires
        is_digit(c),
    ensures
        d == digit_val(c),
{
    (c as u32 - '0' as u32) as u64
}

/// Parses a non-negative decimal number the way `str::parse::<u32>` does.
pub fn parse_u32(s: &str) -> (r: Option<u32>)
    ensures
        r == spec_parse_u32(s@),
{
    let len = s.unicode_len();
    let start: usize = if len > 0 && s.get_char(0) == '+' {
        1
    } else {
        0
    };
    let ghost body = if s@.len() > 0 && s@[0] == '+' {
        s@.drop_first()
    } else {
        s@
    };
    proof {
        assert(body == s@.skip(start as int));
    }
    if len == start {
        return None;
    }
    let mut acc: u64 = 0;
    let mut too_big = false;
    let mut i: usize = start;
    while i < len
        invariant
            start <= i <= len,
            len == s@.len(),
            body == s@.skip(start as int),
            body == (if s@.len() > 0 && s@[0] == '+' {
                s@.drop_first()
            } else {
                s@
            }),
            all_digits(body.take(i - start)),
            !too_big ==> acc == dec_val(body.take(i - start)) && acc <= u32::MAX,
            too_big ==> dec_val(body.take(i - start)) > u32::MAX,
        decreases len - i,
    {
        let c = s.get_char(i);
        if !is_digit_exec(c) {
            proof {
                let k = i - start;
                assert(0 <= k < body.len());
                assert(body[k] == s@[i as int]);
                assert(!is_digit(body[k]));
                assert(!all_digits(body));
                assert(spec_parse_u32(s@) is None) by {
                    let b2 = if s@.len() > 0 && s@[0] == '+' {
                        s@.drop_first()
                    } else {
                        s@
                    };
                    assert(b2 == body);
                    assert(!all_digits(b2));
                };
            }
            return None;
        }
        let d = digit_val_exec(c);
        proof {
            assert(body.take(i - start + 1).drop_last() == body.take(i - start));
            assert(body.take(i - start + 1).last() == body[i - start]);
            assert(all_digits(body.take(i - start + 1)));
        }
        if too_big {
            proof {
                lemma_dec_val_grows(body.take(i - start + 1));
            }
        } else {
            let next = acc * 10 + d;
            if next > u32::MAX as u64 {
                too_big = true;
            }
            acc = next;
        }
        i = i + 1;
    }
    proof {
        assert(body.take(len - start) == body);
    }
    if too_big {
        None
    } else {
        Some(acc as u32)
    }
}

/// The items joined by the given separator.
pub open spec fn spec_join(items: Seq<Seq<char>>, sep: Seq<char>) -> Seq<char>
    decreases items.len(),
{
    if items.len() == 0 {
        Seq::empty()
    } else if items.len() == 1 {
        items[0]
    } else {
        spec_join(items.drop_last(), sep) + sep + items.last()
    }
}

/// The items joined by the separator, as `[T]::join` gives it.
pub fn join_strings(items: &Vec<String>, sep: &str) -> (r: String)
    ensures
        r@ == spec_join(items.deep_view(), sep@),
{
    let mut out = String::new();
    let mut i: usize = 0;
    let ghost view = items.deep_view();
    while i < items.len()
        invariant
            0 <= i <= items.len(),
            view == items.deep_view(),
            view.len() == items.len(),
            forall|j: int| 0 <= j < view.len() ==> view[j] == items@[j]@,
            out@ == spec_join(view.take(i as int), sep@),
        decreases items.len() - i,
    {
        if i > 0 {
            out.append(sep);
        }
        out.append(items[i].as_str());
        proof {
            let next = view.take(i + 1);
            assert(next.drop_last() == view.take(i as int));
            assert(next.last() == view[i as int]);
            if i == 0 {
                assert(out@ == Seq::<char>::empty() + view[0]);
                assert(out@ == next[0]);
            }
        }
        i = i + 1;
    }
    proof {
        assert(view.take(view.len() as int) == view);
    }
    out
}

/// The comma-separated pieces of the input, the current piece accumulating in `cur`.
pub open spec fn split_commas_acc(s: Seq<char>, cur: Seq<char>) -> Seq<Seq<char>>
    decreases s.len(),
{
    if s.len() == 0 {
        seq![cur]
    } else if s[0] == ',' {
        seq![cur] + split_commas_acc(s.drop_first(), Seq::empty())
    } else {
        split_commas_acc(s.drop_first(), cur.push(s[0]))
    }
}

/// The comma-separated entries of a list input: each piece trimmed,
/// empty pieces dropped.
pub open spec fn spec_csv_entries(s: Seq<char>) -> Seq<Seq<char>> {
    split_commas_acc(s, Seq::empty()).map_values(|p: Seq<char>| spec_trim(p)).filter(
        |p: Seq<char>| p.len() > 0,
    )
}

/// Splits a comma-separated list, trims each entry, and drops empty entries.
pub fn split_csv(s: &str) -> (r: Vec<String>)
    ensures
        r.deep_view() == spec_csv_entries(s@),
{
    let len = s.unicode_len();
    let mut pieces: Vec<String> = Vec::new();
    let mut cur = String::new();
    let mut i: usize = 0;
    proof {
        assert(s@.skip(0) == s@);
        assert(pieces.deep_view() =~= Seq::<Seq<char>>::empty());
        assert(Seq::<Seq<char>>::empty() + split_commas_acc(s@, Seq::empty())
            =~= split_commas_acc(s@, Seq::empty()));
    }
    while i < len
        invariant
            0 <= i <= len,
            len == s@.len(),
            pieces.deep_view() + split_commas_acc(s@.skip(i as int), cur@) == split_commas_acc(
                s@,
                Seq::empty(),
            ),
        decreases len - i,
    {
        let c = s.get_char(i);
        proof {
            assert(s@.skip(i as int)[0] == s@[i as int]);
            assert(s@.skip(i as int).drop_first() == s@.skip(i + 1));
        }
        if c == ',' {
            pieces.push(cur);
            cur = String::new();
        } else {
            push_char(&mut cur, c);
        }
        i = i + 1;
    }
    proof {
        assert(s@.skip(len as int) == Seq::<char>::empty());
    }
    pieces.push(cur);
    let ghost raw = split_commas_acc(s@, Seq::<char>::empty());
    let mut out: Vec<String> = Vec::new();
    let mut j: usize = 0;
    while j < pieces.len()
        invariant
            0 <= j <= pieces.len(),
            pieces.deep_view() == raw,
            raw.len() == pieces.len(),
            forall|k: int| 0 <= k < raw.len() ==> raw[k] == pieces@[k]@,
            out.deep_view() == raw.take(j as int).map_values(|p: Seq<char>| spec_trim(p)).filter(
                |p: Seq<char>| p.len() > 0,
            ),
        decreases pieces.len() - j,
    {
        let t = trim_str(pieces[j].as_str());
        proof {
            let mapped = raw.take(j as int).map_values(|p: Seq<char>| spec_trim(p));
            let mapped1 = raw.take(j + 1).map_values(|p: Seq<char>| spec_trim(p));
            assert(raw.take(j + 1) == raw.take(j as int).push(raw[j as int]));
            assert(mapped1 == mapped.push(spec_trim(raw[j as int])));
            mapped.lemma_filter_push(spec_trim(raw[j as int]), |p: Seq<char>| p.len() > 0);
        }
        if t.as_str().unicode_len() > 0 {
            out.push(t);
        }
        j = j + 1;
    }
    proof {
        assert(raw.take(raw.len() as int) == raw);
    }
    out
}

/// The rendering the change list uses for an ordered list: `(未設定)` when
/// empty, otherwise the entries in brackets, comma separated.
pub open spec fn spec_list_display(items: Seq<Seq<char>>) -> Seq<char> {
    if items.len() == 0 {
        "(未設定)"@
    } else {
        "["@ + spec_join(items, ", "@) + "]"@
    }
}

/// Renders an ordered list for the change summary.
pub fn list_display(list: &Vec<String>) -> (r: String)
    ensures
        r@ == spec_list_display(list.deep_view()),
{
    if list.len() == 0 {
        proof {
            assert(list.deep_view().len() == 0);
        }
        "(未設定)".to_owned()
    } else {
        let mut out = "[".to_owned();
        let joined = join_strings(list, ", ");
        out.append(joined.as_str());
        out.append("]");
        out
    }
}

/// The text with every CRLF pair replaced by a bare LF.
pub open spec fn spec_normalize(s: Seq<char>) -> Seq<char>
    decreases s.len(),
{
    if s.len() == 0 {
        Seq::empty()
    } else if s.len() >= 2 && s[0] == '\r' && s[1] == '\n' {
        seq!['\n'] + spec_normalize(s.skip(2))
    } else {
        seq![s[0]] + spec_normalize(s.drop_first())
    }
}

/// Replaces every CRLF pair by a bare LF, so texts compare the same
/// whatever line-ending convention they use.
pub fn normalize_line_endings(s: &str) -> (r: String)
    ensures
        r@ == spec_normalize(s@),
{
    let len = s.unicode_len();
    let mut out = String::new();
    let mut i: usize = 0;
    proof {
        assert(s@.skip(0) == s@);
        assert(Seq::<char>::empty() + spec_normalize(s@) =~= spec_normalize(s@));
    }
    while i < len
        invariant
            0 <= i <= len,
            len == s@.len(),
            out@ + spec_normalize(s@.skip(i as int)) == spec_normalize(s@),
        decreases len - i,
    {
        let c = s.get_char(i);
        proof {
            assert(s@.skip(i as int)[0] == s@[i as int]);
            assert(s@.skip(i as int).drop_first() == s@.skip(i + 1));
            if i + 2 <= len {
                assert(s@.skip(i as int)[1] == s@[i + 1]);
                assert(s@.skip(i as int).skip(2) == s@.skip(i + 2));
            }
        }
        if c == '\r' && i + 1 < len && s.get_char(i + 1) == '\n' {
            push_char(&mut out, '\n');
            i = i + 2;
        } else {
            push_char(&mut out, c);
            i = i + 1;
        }
    }
    proof {
        assert(s@.skip(len as int) == Seq::<char>::empty());
        assert(out@ + Seq::<char>::empty() == out@);
    }
    out
}

/// The text with every bare LF replaced by a CRLF pair.
pub open spec fn spec_to_crlf(s: Seq<char>) -> Seq<char>
    decreases s.len(),
{
    if s.len() == 0 {
        Seq::empty()
    } else if s[0] == '\n' {
        seq!['\r', '\n'] + spec_to_crlf(s.drop_first())
    } else {
        seq![s[0]] + spec_to_crlf(s.drop_first())
    }
}

/// Replaces every LF by a CRLF pair; the input is expected LF-only.
pub fn to_crlf(s: &str) -> (r: String)
    ensures
        r@ == spec_to_crlf(s@),
{
    let len = s.unicode_len();
    let mut out = String::new();
    let mut i: usize = 0;
    proof {
        assert(s@.skip(0) == s@);
        assert(Seq::<char>::empty() + spec_to_crlf(s@) =~= spec_to_crlf(s@));
    }
    while i < len
        invariant
            0 <= i <= len,
            len == s@.len(),
            out@ + spec_to_crlf(s@.skip(i as int)) == spec_to_crlf(s@),
        decreases len - i,
    {
        let c = s.get_char(i);
        proof {
            assert(s@.skip(i as int)[0] == s@[i as int]);
            assert(s@.skip(i as int).drop_first() == s@.skip(i + 1));
        }
        if c == '\n' {
            push_char(&mut out, '\r');
            push_char(&mut out, '\n');
        } else {
            push_char(&mut out, c);
        }
        i = i + 1;
    }
    proof {
        assert(s@.skip(len as int) == Seq::<char>::empty());
        assert(out@ + Seq::<char>::empty() == out@);
    }
    out
}

/// Whether the text holds a CRLF pair anywhere.
pub open spec fn spec_has_crlf(s: Seq<char>) -> bool {
    exists|i: int| 0 <= i && i + 1 < s.len() && #[trigger] s[i] == '\r' && s[i + 1] == '\n'
}

/// Detects the CRLF line-ending convention in the original file text.
pub fn has_crlf(s: &str) -> (r: bool)
    ensures
        r == spec_has_crlf(s@),
{
    let len = s.unicode_len();
    if len < 2 {
        return false;
    }
    let mut i: usize = 0;
    while i + 1 < len
        invariant
            0 <= i,
            i < len,
            len == s@.len(),
            forall|j: int| 0 <= j && j + 1 < s@.len() && j < i ==> !(#[trigger] s@[j] == '\r'
                && s@[j + 1] == '\n'),
        decreases len - i,
    {
        if s.get_char(i) == '\r' && s.get_char(i + 1) == '\n' {
            return true;
        }
        i = i + 1;
    }
    false
}

/// Equality of two strings.
pub fn str_eq(a: &str, b: &str) -> (r: bool)
    ensures
        r == (a@ == b@),
{
    let oa = a.to_owned();
    let ob = b.to_owned();
    oa == ob
}

/// Whether a list of strings holds the given string.
pub fn vec_contains_string(v: &Vec<String>, s: &str) -> (r: bool)
    ensures
        r == v.deep_view().contains(s@),
{
    let mut i: usize = 0;
    while i < v.len()
        invariant
            0 <= i <= v.len(),
            v.deep_view().len() == v.len(),
            forall|j: int| 0 <= j < v.deep_view().len() ==> v.deep_view()[j] == v@[j]@,
            forall|j: int| 0 <= j < i ==> v.deep_view()[j] != s@,
        decreases v.len() - i,
    {
        if str_eq(v[i].as_str(), s) {
            proof {
                assert(v.deep_view()[i as int] == s@);
            }
            return true;
        }
        i = i + 1;
    }
    false
}

/// Strict lexicographic order on character sequences, the order in which
/// `str` compares and sorted maps list their keys.
pub open spec fn lex_lt(a: Seq<char>, b: Seq<char>) -> bool
    decreases a.len(),
{
    if b.len() == 0 {
        false
    } else if a.len() == 0 {
        true
    } else if a[0] != b[0] {
        a[0] < b[0]
    } else {
        lex_lt(a.drop_first(), b.drop_first())
    }
}

pub proof fn lemma_lex_skip(a: Seq<char>, b: Seq<char>, i: int)
    requires
        0 <= i <= a.len(),
        i <= b.len(),
        forall|j: int| 0 <= j < i ==> a[j] == b[j],
    ensures
        lex_lt(a, b) == lex_lt(a.skip(i), b.skip(i)),
    decreases i,
{
    if i > 0 {
        if a.len() == 0 || b.len() == 0 {
        } else {
            assert(a[0] == b[0]);
            lemma_lex_skip(a.drop_first(), b.drop_first(), i - 1);
            assert(a.drop_first().skip(i - 1) == a.skip(i));
            assert(b.drop_first().skip(i - 1) == b.skip(i));
        }
    } else {
        assert(a.skip(0) == a);
        assert(b.skip(0) == b);
    }
}

pub proof fn lemma_lex_trichotomy(a: Seq<char>, b: Seq<char>)
    ensures
        lex_lt(a, b) || lex_lt(b, a) || a == b,
        lex_lt(a, b) ==> !lex_lt(b, a) && a != b,
        lex_lt(b, a) ==> !lex_lt(a, b) && a != b,
    decreases a.len(),
{
    if a.len() == 0 && b.len() == 0 {
        assert(a =~= b);
    } else if a.len() == 0 || b.len() == 0 {
    } else if a[0] != b[0] {
    } else {
        lemma_lex_trichotomy(a.drop_first(), b.drop_first());
        if a.drop_first() == b.drop_first() {
            assert forall|k: int| 0 <= k < a.len() implies a[k] == b[k] by {
                if k > 0 {
                    assert(a.drop_first()[k - 1] == b.drop_first()[k - 1]);
                }
            }
            assert(a =~= b);
        }
        if a == b {
            assert(a.drop_first() == b.drop_first());
        }
    }
}

pub proof fn lemma_lex_trans(a: Seq<char>, b: Seq<char>, c: Seq<char>)
    requires
        lex_lt(a, b),
        lex_lt(b, c),
    ensures
        lex_lt(a, c),
    decreases a.len() + b.len() + c.len(),
{
    if a.len() == 0 {
    } else if b.len() == 0 || c.len() == 0 {
    } else {
        if a[0] == b[0] && b[0] == c[0] {
            lemma_lex_trans(a.drop_first(), b.drop_first(), c.drop_first());
        }
    }
}

/// Compares two strings in lexicographic order.
pub fn str_lex_lt(a: &str, b: &str) -> (r: bool)
    ensures
        r == lex_lt(a@, b@),
{
    let la = a.unicode_len();
    let lb = b.unicode_len();
    let mut i: usize = 0;
    while i < la && i < lb
        invariant
            0 <= i,
            i <= la,
            i <= lb,
            la == a@.len(),
            lb == b@.len(),
            forall|j: int| 0 <= j < i ==> a@[j] == b@[j],
        decreases la - i,
    {
        let ca = a.get_char(i);
        let cb = b.get_char(i);
        if ca != cb {
            proof {
                lemma_lex_skip(a@, b@, i as int);
                assert(a@.skip(i as int)[0] == a@[i as int]);
                assert(b@.skip(i as int)[0] == b@[i as int]);
            }
            return ca < cb;
        }
        i = i + 1;
    }
    proof {
        lemma_lex_skip(a@, b@, i as int);
        if i < lb {
            assert(a@.skip(i as int).len() == 0);
        } else if i < la {
            assert(b@.skip(i as int).len() == 0);
        } else {
            assert(a@.skip(i as int).len() == 0);
            assert(b@.skip(i as int).len() == 0);
        }
    }
    la < lb
}

} // verus!
