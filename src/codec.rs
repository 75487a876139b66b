//! Backup file names: `YYYY-MM-DD_CC_<basename>[.<extension>]`.
use vstd::prelude::*;

use crate::metadata::FileNameMetadata;

verus! {

pub open spec fn is_digit(c: char) -> bool {
    '0' <= c && c <= '9'
}

pub open spec fn all_digits(s: Seq<char>) -> bool {
    forall|i: int| 0 <= i < s.len() ==> is_digit(#[trigger] s[i])
}

/// The number that a run of decimal digits spells.
pub open spec fn decimal_value(s: Seq<char>) -> nat
    decreases s.len(),
{
    if s.len() == 0 {
        0
    } else {
        decimal_value(s.drop_last()) * 10 + (s.last() as nat - '0' as nat) as nat
    }
}

pub open spec fn pow10(k: nat) -> nat
    decreases k,
{
    if k == 0 {
        1
    } else {
        10 * pow10((k - 1) as nat)
    }
}

/// The character of decimal digit `d`.
pub open spec fn digit_char(d: nat) -> char {
    ('0' as nat + d) as char
}

/// The decimal digits of `n`, without leading zeros.
pub open spec fn decimal(n: nat) -> Seq<char>
    decreases n,
{
    if n < 10 {
        seq![digit_char(n)]
    } else {
        decimal(n / 10).push(digit_char(n % 10))
    }
}

/// The decimal digits of `n`, with zeros in front up to `width` characters.
pub open spec fn padded(n: nat, width: nat) -> Seq<char> {
    zeros(if decimal(n).len() < width { (width - decimal(n).len()) as nat } else { 0 }) + decimal(n)
}

pub open spec fn zeros(k: nat) -> Seq<char> {
    Seq::new(k, |i: int| '0')
}

pub open spec fn extension_view(extension: Option<&str>) -> Option<Seq<char>> {
    match extension {
        Some(e) => Some(e@),
        None => None,
    }
}

/// Whether `name` has the shape `DDDD-DD-DD_DD_<rest>`, with decimal digits `D` and a
/// rest without line breaks.
pub open spec fn is_backup_name(name: Seq<char>) -> bool {
    &&& name.len() >= 14
    &&& all_digits(name.subrange(0, 4))
    &&& name[4] == '-'
    &&& all_digits(name.subrange(5, 7))
    &&& name[7] == '-'
    &&& all_digits(name.subrange(8, 10))
    &&& name[10] == '_'
    &&& all_digits(name.subrange(11, 13))
    &&& name[13] == '_'
    &&& forall|i: int| 14 <= i < name.len() ==> #[trigger] name[i] != '\n'
}

/// What a file name says of its backup, if it is a backup's name.
pub open spec fn decode_name(name: Seq<char>) -> Option<FileNameMetadata> {
    if is_backup_name(name) {
        Some(
            FileNameMetadata {
                year: decimal_value(name.subrange(0, 4)) as u32,
                month: decimal_value(name.subrange(5, 7)) as u32,
                day: decimal_value(name.subrange(8, 10)) as u32,
                counter: decimal_value(name.subrange(11, 13)) as u32,
            },
        )
    } else {
        None
    }
}

/// The name of the backup with date and counter `m` of a file with this basename and
/// extension.
pub open spec fn encode_name(m: FileNameMetadata, base_name: Seq<char>, extension: Option<Seq<char>>) -> Seq<char> {
    padded(m.year as nat, 4) + seq!['-'] + padded(m.month as nat, 2) + seq!['-'] + padded(
        m.day as nat,
        2,
    ) + seq!['_'] + padded(m.counter as nat, 2) + seq!['_'] + base_name + match extension {
        Some(e) => seq!['.'] + e,
        None => Seq::empty(),
    }
}

/// Reads the digits at positions `from..to` of `s` as a number.
fn parse_digits(s: &str, from: usize, to: usize) -> (r: Option<u32>)
    requires
        from <= to <= s@.len(),
        to - from <= 4,
    ensures
        r == (if all_digits(s@.subrange(from as int, to as int)) {
            Some(decimal_value(s@.subrange(from as int, to as int)) as u32)
        } else {
            None
        }),
{
    let mut value: u32 = 0;
    let mut i: usize = from;
    while i < to
        invariant
            from <= i <= to <= s@.len(),
            to - from <= 4,
            all_digits(s@.subrange(from as int, i as int)),
            value == decimal_value(s@.subrange(from as int, i as int)),
            value < pow10((i - from) as nat),
            pow10((i - from) as nat) <= 10000,
        decreases to - i,
    {
        let c = s.get_char(i);
        let ghost prefix = s@.subrange(from as int, i as int);
        let ghost next = s@.subrange(from as int, i + 1);
        assert(next.drop_last() =~= prefix);
        if c < '0' || c > '9' {
            assert(!is_digit(next[i - from]));
            return None;
        }
        let d = (c as u32) - ('0' as u32);
        proof {
            let k = (i - from) as nat;
            assert(pow10(k + 1) == 10 * pow10(k));
            assert(value * 10 + d < 10 * pow10(k)) by (nonlinear_arith)
                requires
                    value < pow10(k),
                    d < 10,
            ;
            assert(pow10(k + 1) <= 10000) by {
                assert(k + 1 <= 4);
                reveal_with_fuel(pow10, 5);
                assert(pow10(1) == 10);
                assert(pow10(2) == 100);
                assert(pow10(3) == 1000);
                assert(pow10(4) == 10000);
            }
        }
        value = value * 10 + d;
        i = i + 1;
    }
    Some(value)
}

/// The date and counter that a backup's file name carries, or `None` for a name of
/// another shape. Never fails otherwise.
pub fn metadata_from_file_name(file_name: &str) -> (r: Option<FileNameMetadata>)
    ensures
        r == decode_name(file_name@),
        r is None <==> !is_backup_name(file_name@),
{
    let len = file_name.unicode_len();
    if len < 14 {
        return None;
    }
    let year = parse_digits(file_name, 0, 4);
    let month = parse_digits(file_name, 5, 7);
    let day = parse_digits(file_name, 8, 10);
    let counter = parse_digits(file_name, 11, 13);
    if file_name.get_char(4) != '-' || file_name.get_char(7) != '-' || file_name.get_char(10)
        != '_' || file_name.get_char(13) != '_' {
        return None;
    }
    let mut i: usize = 14;
    while i < len
        invariant
            14 <= i <= len == file_name@.len(),
            forall|k: int| 14 <= k < i ==> #[trigger] file_name@[k] != '\n',
        decreases len - i,
    {
        if file_name.get_char(i) == '\n' {
            return None;
        }
        i = i + 1;
    }
    match (year, month, day, counter) {
        (Some(year), Some(month), Some(day), Some(counter)) => Some(
            FileNameMetadata { year, month, day, counter },
        ),
        _ => None,
    }
}

fn digit_str(d: u32) -> (r: &'static str)
    requires
        d < 10,
    ensures
        r@ == seq![digit_char(d as nat)],
{
    proof {
        reveal_strlit("0");
        reveal_strlit("1");
        reveal_strlit("2");
        reveal_strlit("3");
        reveal_strlit("4");
        reveal_strlit("5");
        reveal_strlit("6");
        reveal_strlit("7");
        reveal_strlit("8");
        reveal_strlit("9");
    }
    match d {
        0 => "0",
        1 => "1",
        2 => "2",
        3 => "3",
        4 => "4",
        5 => "5",
        6 => "6",
        7 => "7",
        8 => "8",
        _ => "9",
    }
}

fn append_decimal(out: &mut String, n: u32)
    ensures
        final(out)@ == old(out)@ + decimal(n as nat),
    decreases n,
{
    if n >= 10 {
        append_decimal(out, n / 10);
    }
    out.append(digit_str(n % 10));
    proof {
        if n >= 10 {
            assert(decimal(n as nat) == decimal((n / 10) as nat).push(digit_char((n % 10) as nat)));
        }
    }
    assert(final(out)@ =~= old(out)@ + decimal(n as nat));
}

fn decimal_len(n: u32) -> (r: usize)
    ensures
        r == decimal(n as nat).len(),
        r <= n + 1,
    decreases n,
{
    if n < 10 {
        1
    } else {
        1 + decimal_len(n / 10)
    }
}

fn append_padded(out: &mut String, n: u32, width: usize)
    ensures
        final(out)@ == old(out)@ + padded(n as nat, width as nat),
{
    let ghost start = out@;
    let len = decimal_len(n);
    let mut k: usize = len;
    while k < width
        invariant
            len <= k,
            k <= width || k == len,
            len == decimal(n as nat).len(),
            out@ == start + zeros((k - len) as nat),
        decreases width - k,
    {
        proof {
            reveal_strlit("0");
        }
        out.append("0");
        assert(out@ =~= start + zeros((k + 1 - len) as nat));
        k = k + 1;
    }
    append_decimal(out, n);
    assert(out@ =~= start + padded(n as nat, width as nat));
}

/// The file name of the backup with date and counter `metadata` of a file with this
/// basename and extension: `YYYY-MM-DD_CC_<basename>[.<extension>]`, each number in at
/// least as many digits as shown.
pub fn target_file_name(metadata: &FileNameMetadata, base_name: &str, extension: Option<&str>) -> (r:
    String)
    ensures
        r@ == encode_name(*metadata, base_name@, extension_view(extension)),
{
    proof {
        reveal_strlit("-");
        reveal_strlit("_");
        reveal_strlit(".");
    }
    let mut name = String::new();
    append_padded(&mut name, metadata.year, 4);
    name.append("-");
    append_padded(&mut name, metadata.month, 2);
    name.append("-");
    append_padded(&mut name, metadata.day, 2);
    name.append("_");
    append_padded(&mut name, metadata.counter, 2);
    name.append("_");
    name.append(base_name);
    let ghost before_ext = name@;
    if let Some(ext) = extension {
        name.append(".");
        name.append(ext);
        assert(name@ =~= before_ext + (seq!['.'] + ext@));
    } else {
        assert(name@ =~= before_ext + Seq::empty());
    }
    name
}

proof fn lemma_decimal(n: nat)
    ensures
        all_digits(decimal(n)),
        decimal_value(decimal(n)) == n,
        decimal(n).len() >= 1,
        forall|w: nat| w >= 1 && n < pow10(w) ==> #[trigger] pow10(w) > 0 && decimal(n).len() <= w,
    decreases n,
{
    let c = digit_char(n % 10);
    assert(c as nat == '0' as nat + n % 10);
    if n >= 10 {
        lemma_decimal(n / 10);
        let d = decimal(n / 10);
        assert(decimal(n).drop_last() =~= d);
        assert(decimal(n).last() == c);
        assert((n / 10) * 10 + n % 10 == n) by (nonlinear_arith);
        assert(decimal_value(decimal(n)) == decimal_value(d) * 10 + (c as nat - '0' as nat) as nat);
        assert forall|w: nat| w >= 1 && n < pow10(w) implies #[trigger] pow10(w) > 0 && decimal(n).len() <= w by {
            assert(pow10(w) == 10 * pow10((w - 1) as nat));
            assert(n / 10 < pow10((w - 1) as nat));
            if w == 1 {
                assert(pow10(0) == 1);
            }
        }
    } else {
        assert forall|w: nat| w >= 1 && n < pow10(w) implies #[trigger] pow10(w) > 0 && decimal(n).len() <= w by {
            assert(pow10(w) == 10 * pow10((w - 1) as nat));
            lemma_pow10_positive((w - 1) as nat);
        }
        assert(decimal(n).drop_last() =~= Seq::<char>::empty());
        assert(decimal(n).last() == c);
        assert(decimal_value(decimal(n)) == decimal_value(Seq::<char>::empty()) * 10 + (c as nat - '0' as nat) as nat);
    }
}

proof fn lemma_pow10_positive(k: nat)
    ensures
        pow10(k) >= 1,
    decreases k,
{
    if k > 0 {
        lemma_pow10_positive((k - 1) as nat);
    }
}

proof fn lemma_leading_zeros(k: nat, x: Seq<char>)
    ensures
        decimal_value(zeros(k) + x) == decimal_value(x),
        all_digits(x) ==> all_digits(zeros(k) + x),
    decreases x.len() + k,
{
    if x.len() == 0 {
        if k > 0 {
            assert(zeros(k).drop_last() =~= zeros((k - 1) as nat));
            lemma_leading_zeros((k - 1) as nat, x);
            assert(zeros(k) + x =~= zeros(k));
            assert(zeros((k - 1) as nat) + x =~= zeros((k - 1) as nat));
        }
    } else {
        lemma_leading_zeros(k, x.drop_last());
        assert((zeros(k) + x).drop_last() =~= zeros(k) + x.drop_last());
    }
}

proof fn lemma_padded(n: nat, w: nat)
    requires
        w >= 1,
        n < pow10(w),
    ensures
        padded(n, w).len() == w,
        all_digits(padded(n, w)),
        decimal_value(padded(n, w)) == n,
{
    lemma_decimal(n);
    assert(pow10(w) > 0);
    lemma_leading_zeros((w - decimal(n).len()) as nat, decimal(n));
}

/// Decoding the name of a backup gives back its date and counter, when each number fits
/// the digits that the name gives it and neither basename nor extension holds a line
/// break.
pub proof fn lemma_round_trip(m: FileNameMetadata, base_name: Seq<char>, extension: Option<Seq<char>>)
    requires
        m.year <= 9999,
        m.month <= 99,
        m.day <= 99,
        m.counter <= 99,
        forall|i: int| 0 <= i < base_name.len() ==> #[trigger] base_name[i] != '\n',
        extension matches Some(e) ==> forall|i: int| 0 <= i < e.len() ==> #[trigger] e[i] != '\n',
    ensures
        decode_name(encode_name(m, base_name, extension)) == Some(m),
{
    reveal_with_fuel(pow10, 5);
    lemma_padded(m.year as nat, 4);
    lemma_padded(m.month as nat, 2);
    lemma_padded(m.day as nat, 2);
    lemma_padded(m.counter as nat, 2);
    let y = padded(m.year as nat, 4);
    let mo = padded(m.month as nat, 2);
    let d = padded(m.day as nat, 2);
    let c = padded(m.counter as nat, 2);
    let tail = base_name + match extension {
        Some(e) => seq!['.'] + e,
        None => Seq::empty(),
    };
    let name = encode_name(m, base_name, extension);
    assert(name =~= y + seq!['-'] + mo + seq!['-'] + d + seq!['_'] + c + seq!['_'] + tail);
    assert(name.subrange(0, 4) =~= y);
    assert(name.subrange(5, 7) =~= mo);
    assert(name.subrange(8, 10) =~= d);
    assert(name.subrange(11, 13) =~= c);
    assert forall|i: int| 14 <= i < name.len() implies #[trigger] name[i] != '\n' by {
        assert(name[i] == tail[i - 14]);
        if i - 14 >= base_name.len() {
            if let Some(e) = extension {
                if i - 14 > base_name.len() {
                    assert(tail[i - 14] == e[i - 15 - base_name.len()]);
                }
            }
        }
    }
}

} // verus!
