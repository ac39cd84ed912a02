//! The text form of sizes and filesystems: parsing and rendering.

use vstd::prelude::*;
use crate::text::{
    all_ascii, all_digits, ascii_lower, ascii_upper, concat3, count_leading_digits,
    decimal, decimal_text, digit_prefix_len, find_char, index_of, is_digit,
    is_white, lemma_decimal, lemma_digit_prefix_len, lemma_index_of, lower_char, lower_model,
    lemma_trim_bounds, lower_text, parse_uint, text_eq, trim_end_ws, trim_model, trim_start_ws, trim_text,
    uint_parse, upper_char, upper_model, upper_text,
};
use crate::types::{percentage_range_message, Filesystem, PercentTarget, SizeUnit, ValidPercentage};

verus! {

broadcast use {ValidPercentage::lemma_from_value, ValidPercentage::lemma_value_determines};

/// A result with its error text taken by its view.
pub open spec fn err_view<T>(r: Result<T, String>) -> Result<T, Seq<char>> {
    match r {
        Ok(v) => Ok(v),
        Err(e) => Err(e@),
    }
}

pub open spec fn percent_target(suffix: Seq<char>) -> Option<PercentTarget> {
    if suffix == "%FREE"@ {
        Some(PercentTarget::Free)
    } else if suffix == "%VG"@ {
        Some(PercentTarget::Vg)
    } else if suffix == "%PVS"@ {
        Some(PercentTarget::Pvs)
    } else {
        None
    }
}

pub open spec fn unsupported_target_message(suffix: Seq<char>) -> Seq<char> {
    "Unsupported percentage target: '"@ + suffix + "'"@
}

/// A percentage size in canonical (trimmed, upper-case) text, whose first
/// `%` stands at `idx`.
pub open spec fn parse_percentage_spec(t: Seq<char>, idx: int) -> Result<SizeUnit, Seq<char>> {
    let num = t.take(idx);
    let suffix = t.skip(idx);
    match percent_target(suffix) {
        None => Err(unsupported_target_message(suffix)),
        Some(target) => match uint_parse(num, 255) {
            None => Err("Invalid percentage number"@),
            Some(v) => if 1 <= v <= 100 {
                Ok(SizeUnit::Percentage(ValidPercentage::from_value(v as u8), target))
            } else {
                Err(percentage_range_message(v as u8))
            },
        },
    }
}

/// The unit that a suffix names, holding the count `v`.
pub open spec fn unit_named(unit: Seq<char>, v: u64) -> Option<SizeUnit> {
    if unit == "B"@ {
        Some(SizeUnit::Bytes(v))
    } else if unit == "K"@ || unit == "KB"@ {
        Some(SizeUnit::Kilobytes(v))
    } else if unit == "M"@ || unit == "MB"@ {
        Some(SizeUnit::Megabytes(v))
    } else if unit == "G"@ || unit == "GB"@ {
        Some(SizeUnit::Gigabytes(v))
    } else if unit == "T"@ || unit == "TB"@ {
        Some(SizeUnit::Terabytes(v))
    } else if unit == "P"@ || unit == "PB"@ {
        Some(SizeUnit::Petabytes(v))
    } else if unit == "E"@ || unit == "EB"@ {
        Some(SizeUnit::Exabytes(v))
    } else if unit == "S"@ {
        Some(SizeUnit::Sectors(v))
    } else if unit.len() == 0 {
        Some(SizeUnit::Extents(v))
    } else {
        None
    }
}

pub open spec fn no_numeric_message(t: Seq<char>) -> Seq<char> {
    "No numeric value found in size: '"@ + t + "'"@
}

pub open spec fn unknown_unit_message(unit: Seq<char>) -> Seq<char> {
    "Unknown size unit: '"@ + unit + "'"@
}

/// An absolute size or a count of extents in canonical text.
pub open spec fn parse_absolute_spec(t: Seq<char>) -> Result<SizeUnit, Seq<char>> {
    let k = digit_prefix_len(t);
    if k == 0 {
        Err(no_numeric_message(t))
    } else {
        match uint_parse(t.take(k), u64::MAX as nat) {
            None => Err("Invalid numeric value"@),
            Some(v) => match unit_named(t.skip(k), v as u64) {
                Some(u) => Ok(u),
                None => Err(unknown_unit_message(t.skip(k))),
            },
        }
    }
}

/// A size in canonical (trimmed, upper-case) text.
pub open spec fn size_parse_canonical(t: Seq<char>) -> Result<SizeUnit, Seq<char>> {
    match index_of(t, '%') {
        Some(i) => parse_percentage_spec(t, i),
        None => parse_absolute_spec(t),
    }
}

/// A size as the user writes it: surrounding white space is ignored and
/// letters may be of either case.
pub open spec fn size_parse_text(s: Seq<char>) -> Result<SizeUnit, Seq<char>> {
    size_parse_canonical(upper_model(trim_model(s)))
}

pub open spec fn target_suffix(t: PercentTarget) -> Seq<char> {
    match t {
        PercentTarget::Free => "FREE"@,
        PercentTarget::Vg => "VG"@,
        PercentTarget::Pvs => "PVS"@,
    }
}

/// The text form of a size.
pub open spec fn size_text(u: SizeUnit) -> Seq<char> {
    match u {
        SizeUnit::Bytes(n) => decimal(n as nat) + "B"@,
        SizeUnit::Kilobytes(n) => decimal(n as nat) + "K"@,
        SizeUnit::Megabytes(n) => decimal(n as nat) + "M"@,
        SizeUnit::Gigabytes(n) => decimal(n as nat) + "G"@,
        SizeUnit::Terabytes(n) => decimal(n as nat) + "T"@,
        SizeUnit::Petabytes(n) => decimal(n as nat) + "P"@,
        SizeUnit::Exabytes(n) => decimal(n as nat) + "E"@,
        SizeUnit::Sectors(n) => decimal(n as nat) + "s"@,
        SizeUnit::Extents(n) => decimal(n as nat),
        SizeUnit::Percentage(p, t) => decimal(p.value() as nat) + "%"@ + target_suffix(t),
    }
}

impl SizeUnit {
    /// Parses a percentage size in canonical (trimmed, upper-case) text:
    /// a number from 1 to 100, then `%FREE`, `%VG` or `%PVS`.
    pub fn parse_percentage(s: &str) -> (r: Result<SizeUnit, String>)
        ensures
            err_view(r) == match index_of(s@, '%') {
                Some(i) => parse_percentage_spec(s@, i),
                None => Err("Missing '%' in percentage string"@),
            },
    {
        let idx = match find_char(s, '%') {
            Some(i) => i,
            None => {
                proof {
                    reveal_strlit("Missing '%' in percentage string");
                }
                return Err(String::from_str("Missing '%' in percentage string"));
            },
        };
        let n = s.unicode_len();
        proof {
            lemma_index_of(s@, '%');
        }
        let num_part = s.substring_char(0, idx);
        let suffix_part = s.substring_char(idx, n);
        assert(num_part@ =~= s@.take(idx as int));
        assert(suffix_part@ =~= s@.skip(idx as int));
        let target = if text_eq(suffix_part, "%FREE") {
            PercentTarget::Free
        } else if text_eq(suffix_part, "%VG") {
            PercentTarget::Vg
        } else if text_eq(suffix_part, "%PVS") {
            PercentTarget::Pvs
        } else {
            return Err(concat3("Unsupported percentage target: '", suffix_part, "'"));
        };
        let raw_val: u8 = match parse_uint(num_part, 255) {
            Some(v) => v as u8,
            None => {
                return Err(String::from_str("Invalid percentage number"));
            },
        };
        match ValidPercentage::new(raw_val) {
            Ok(valid_percent) => Ok(SizeUnit::Percentage(valid_percent, target)),
            Err(e) => Err(e),
        }
    }

    /// Parses an absolute size or a count of extents in canonical
    /// (trimmed, upper-case) text: decimal digits, then a unit suffix.
    pub fn parse_absolute(s: &str) -> (r: Result<SizeUnit, String>)
        ensures
            err_view(r) == parse_absolute_spec(s@),
    {
        let split_idx = count_leading_digits(s);
        if split_idx == 0 {
            return Err(concat3("No numeric value found in size: '", s, "'"));
        }
        let n = s.unicode_len();
        proof {
            lemma_digit_prefix_len(s@);
        }
        let num_part = s.substring_char(0, split_idx);
        let unit = s.substring_char(split_idx, n);
        assert(num_part@ =~= s@.take(split_idx as int));
        assert(unit@ =~= s@.skip(split_idx as int));
        let val: u64 = match parse_uint(num_part, 18446744073709551615u128) {
            Some(v) => v as u64,
            None => {
                return Err(String::from_str("Invalid numeric value"));
            },
        };
        if text_eq(unit, "B") {
            Ok(SizeUnit::Bytes(val))
        } else if text_eq(unit, "K") || text_eq(unit, "KB") {
            Ok(SizeUnit::Kilobytes(val))
        } else if text_eq(unit, "M") || text_eq(unit, "MB") {
            Ok(SizeUnit::Megabytes(val))
        } else if text_eq(unit, "G") || text_eq(unit, "GB") {
            Ok(SizeUnit::Gigabytes(val))
        } else if text_eq(unit, "T") || text_eq(unit, "TB") {
            Ok(SizeUnit::Terabytes(val))
        } else if text_eq(unit, "P") || text_eq(unit, "PB") {
            Ok(SizeUnit::Petabytes(val))
        } else if text_eq(unit, "E") || text_eq(unit, "EB") {
            Ok(SizeUnit::Exabytes(val))
        } else if text_eq(unit, "S") {
            Ok(SizeUnit::Sectors(val))
        } else if unit.unicode_len() == 0 {
            Ok(SizeUnit::Extents(val))
        } else {
            Err(concat3("Unknown size unit: '", unit, "'"))
        }
    }

    /// Parses a size already trimmed and upper-cased.
    pub fn parse_canonical(s: &str) -> (r: Result<SizeUnit, String>)
        ensures
            err_view(r) == size_parse_canonical(s@),
    {
        match find_char(s, '%') {
            Some(_) => Self::parse_percentage(s),
            None => Self::parse_absolute(s),
        }
    }

    /// Parses a size such as `10G`, `512s`, `100` (extents) or `50%FREE`.
    pub fn parse(s: &str) -> (r: Result<SizeUnit, String>)
        ensures
            err_view(r) == size_parse_text(s@),
    {
        let t = trim_text(s);
        let u = upper_text(t);
        Self::parse_canonical(u.as_str())
    }

    /// The text form of the size, which `parse` reads back.
    pub fn to_string(&self) -> (r: String)
        ensures
            r@ == size_text(*self),
    {
        let (n, unit): (u64, &str) = match self {
            SizeUnit::Bytes(n) => (*n, "B"),
            SizeUnit::Kilobytes(n) => (*n, "K"),
            SizeUnit::Megabytes(n) => (*n, "M"),
            SizeUnit::Gigabytes(n) => (*n, "G"),
            SizeUnit::Terabytes(n) => (*n, "T"),
            SizeUnit::Petabytes(n) => (*n, "P"),
            SizeUnit::Exabytes(n) => (*n, "E"),
            SizeUnit::Sectors(n) => (*n, "s"),
            SizeUnit::Extents(n) => (*n, ""),
            SizeUnit::Percentage(p, target) => {
                let suffix = match target {
                    PercentTarget::Free => "FREE",
                    PercentTarget::Vg => "VG",
                    PercentTarget::Pvs => "PVS",
                };
                let d = decimal_text(p.get() as u128);
                return concat3(d.as_str(), "%", suffix);
            },
        };
        let mut r = decimal_text(n as u128);
        if let SizeUnit::Extents(_) = self {
            return r;
        }
        r.append(unit);
        r
    }
}

/// Parsing a size ignores white space around it and letter case: an ASCII
/// text parses as its trimmed, upper-cased form does; and what it parses to
/// is a percentage exactly when the text holds a `%`.
pub proof fn lemma_size_parse_normal_form(s: Seq<char>)
    requires
        all_ascii(s),
    ensures
        size_parse_text(s) == size_parse_text(upper_model(trim_model(s))),
        size_parse_text(s) matches Ok(u) ==> (u is Percentage <==> index_of(s, '%') is Some),
{
    let (a, b) = lemma_trim_bounds(s);
    let t = trim_model(s);
    assert forall|i: int| 0 <= i < t.len() implies crate::text::is_ascii_char(#[trigger] t[i]) by {
        assert(t[i] == s[a + i]);
    }
    let u = ascii_upper(t);
    assert(upper_model(t) == u);
    assert forall|i: int| 0 <= i < u.len() implies crate::text::is_ascii_char(#[trigger] u[i]) by {
        assert(u[i] == upper_char(t[i]));
    }
    if u.len() > 0 {
        assert(u[0] == upper_char(t[0]));
        assert(t[0] == s[a]);
        assert(u.last() == upper_char(t.last()));
        assert(t.last() == s[b - 1]);
        lemma_trim_keeps(u);
    } else {
        assert(trim_model(u) =~= u);
    }
    assert(ascii_upper(u) =~= u);
    assert(upper_model(trim_model(u)) == u);
    lemma_index_of(s, '%');
    lemma_index_of(u, '%');
    lemma_index_of(t, '%');
    if index_of(s, '%') is Some {
        let k = index_of(s, '%').unwrap();
        assert(!is_white(s[k]));
        assert(a <= k < b);
        assert(t[k - a] == s[k]);
        assert(u[k - a] == '%');
    }
    if index_of(u, '%') is Some {
        let k = index_of(u, '%').unwrap();
        assert(u[k] == upper_char(t[k]));
        assert(t[k] == '%');
        assert(s[a + k] == t[k]);
    }
}

impl std::str::FromStr for SizeUnit {
    type Err = String;

    fn from_str(s: &str) -> (r: Result<Self, Self::Err>)
        ensures
            err_view(r) == size_parse_text(s@),
    {
        SizeUnit::parse(s)
    }
}

proof fn lemma_trim_keeps(t: Seq<char>)
    requires
        t.len() > 0,
        !is_white(t[0]),
        !is_white(t.last()),
    ensures
        trim_model(t) == t,
{
    assert(trim_start_ws(t) == t);
    assert(trim_end_ws(t) == t);
}

proof fn lemma_upper_concat(a: Seq<char>, b: Seq<char>)
    ensures
        ascii_upper(a + b) == ascii_upper(a) + ascii_upper(b),
{
    assert(ascii_upper(a + b) =~= ascii_upper(a) + ascii_upper(b));
}

proof fn lemma_upper_digits(d: Seq<char>)
    requires
        all_digits(d),
    ensures
        ascii_upper(d) == d,
{
    assert(ascii_upper(d) =~= d);
}

proof fn lemma_char_absent(t: Seq<char>, c: char)
    requires
        forall|i: int| 0 <= i < t.len() ==> t[i] != c,
    ensures
        index_of(t, c) is None,
{
    lemma_index_of(t, c);
}

/// The first digit of a decimal rendering is no sign.
proof fn lemma_uint_parse_decimal(n: nat, max: nat)
    requires
        n <= max,
    ensures
        uint_parse(decimal(n), max) == Some(n),
{
    lemma_decimal(n);
    assert(is_digit(decimal(n)[0]));
}

/// An absolute size, rendered as digits and a unit suffix of at most one
/// letter, reads back as `expect`.
proof fn lemma_absolute_roundtrip(n: u64, unit: Seq<char>, expect: SizeUnit)
    requires
        all_ascii(unit),
        forall|i: int| 0 <= i < unit.len() ==> !is_white(#[trigger] unit[i]) && !is_digit(unit[i]) && unit[i] != '%' && !is_digit(upper_char(unit[i])) && upper_char(unit[i]) != '%',
        unit_named(ascii_upper(unit), n) == Some(expect),
    ensures
        size_parse_text(decimal(n as nat) + unit) == Ok::<SizeUnit, Seq<char>>(expect),
{
    let d = decimal(n as nat);
    lemma_decimal(n as nat);
    let t = d + unit;
    assert(all_ascii(t)) by {
        assert forall|i: int| 0 <= i < t.len() implies crate::text::is_ascii_char(#[trigger] t[i]) by {
            if i < d.len() {
                assert(t[i] == d[i]);
            } else {
                assert(t[i] == unit[i - d.len()]);
            }
        }
    }
    assert(t[0] == d[0]);
    assert(is_digit(d[0]));
    if unit.len() == 0 {
        assert(t =~= d);
    } else {
        assert(t.last() == unit[unit.len() - 1]);
    }
    lemma_trim_keeps(t);
    assert(trim_model(t) == t);
    lemma_upper_concat(d, unit);
    lemma_upper_digits(d);
    let t2 = d + ascii_upper(unit);
    assert(upper_model(t) == t2);
    let u2 = ascii_upper(unit);
    assert forall|i: int| 0 <= i < t2.len() implies t2[i] != '%' by {
        if i < d.len() {
            assert(t2[i] == d[i]);
            assert(is_digit(d[i]));
        } else {
            assert(t2[i] == u2[i - d.len()]);
        }
    }
    lemma_char_absent(t2, '%');
    lemma_digit_prefix_len(t2);
    let k = digit_prefix_len(t2);
    assert forall|i: int| 0 <= i < d.len() implies is_digit(#[trigger] t2[i]) by {
        assert(t2[i] == d[i]);
    }
    if k < d.len() {
        assert(is_digit(t2[k]));
    }
    if k > d.len() {
        assert(t2[d.len() as int] == u2[0]);
        assert(is_digit(t2[d.len() as int]));
    }
    assert(k == d.len());
    assert(t2.take(k) =~= d);
    assert(t2.skip(k) =~= u2);
    lemma_uint_parse_decimal(n as nat, u64::MAX as nat);
}

proof fn lemma_percentage_roundtrip(p: ValidPercentage, tg: PercentTarget)
    requires
        1 <= p.value() <= 100,
    ensures
        size_parse_text(size_text(SizeUnit::Percentage(p, tg))) == Ok::<SizeUnit, Seq<char>>(SizeUnit::Percentage(p, tg)),
{
    reveal_strlit("%");
    reveal_strlit("FREE");
    reveal_strlit("VG");
    reveal_strlit("PVS");
    reveal_strlit("%FREE");
    reveal_strlit("%VG");
    reveal_strlit("%PVS");
    let u = SizeUnit::Percentage(p, tg);

    let v = p.value();
    let d = decimal(v as nat);
    lemma_decimal(v as nat);
    let sfx = "%"@ + target_suffix(tg);
    let t = d + sfx;
    assert(size_text(u) =~= t);
    assert(all_ascii(t)) by {
        assert forall|i: int| 0 <= i < t.len() implies crate::text::is_ascii_char(#[trigger] t[i]) by {
            if i < d.len() {
                assert(t[i] == d[i]);
            } else {
                assert(t[i] == sfx[i - d.len()]);
            }
        }
    }
    assert(t[0] == d[0]);
    assert(is_digit(d[0]));
    assert(t.last() == sfx.last());
    lemma_trim_keeps(t);
    lemma_upper_concat(d, sfx);
    lemma_upper_digits(d);
    assert(ascii_upper(sfx) =~= sfx);
    assert(upper_model(trim_model(t)) == t);
    assert forall|i: int| 0 <= i < d.len() implies t[i] != '%' by {
        assert(t[i] == d[i]);
        assert(is_digit(d[i]));
    }
    assert(t[d.len() as int] == '%');
    lemma_index_of(t, '%');
    assert(index_of(t, '%') == Some(d.len() as int));
    assert(t.take(d.len() as int) =~= d);
    assert(t.skip(d.len() as int) =~= sfx);
    lemma_uint_parse_decimal(v as nat, 255);
    match tg {
        PercentTarget::Free => assert(sfx =~= "%FREE"@),
        PercentTarget::Vg => assert(sfx =~= "%VG"@),
        PercentTarget::Pvs => assert(sfx =~= "%PVS"@),
    }
    assert(percent_target(sfx) == Some(tg));
    assert(((v as nat) as u8) == v);
    assert(ValidPercentage::from_value(v) == p);
    assert(size_parse_text(size_text(u)) == Ok::<SizeUnit, Seq<char>>(u));
}

/// Rendering a size as text and parsing the text gives the size back.
pub proof fn lemma_size_text_roundtrip(u: SizeUnit)
    requires
        u.wf(),
    ensures
        size_parse_text(size_text(u)) == Ok::<SizeUnit, Seq<char>>(u),
{
    reveal_strlit("B");
    reveal_strlit("K");
    reveal_strlit("KB");
    reveal_strlit("M");
    reveal_strlit("MB");
    reveal_strlit("G");
    reveal_strlit("GB");
    reveal_strlit("T");
    reveal_strlit("TB");
    reveal_strlit("P");
    reveal_strlit("PB");
    reveal_strlit("E");
    reveal_strlit("EB");
    reveal_strlit("S");
    reveal_strlit("s");
    assert("B"@[0] == 'B' && "K"@[0] == 'K' && "M"@[0] == 'M' && "G"@[0] == 'G');
    assert("T"@[0] == 'T' && "P"@[0] == 'P' && "E"@[0] == 'E' && "S"@[0] == 'S');
    match u {
        SizeUnit::Bytes(n) => {
            assert(ascii_upper("B"@) =~= "B"@);
            lemma_absolute_roundtrip(n, "B"@, u);
        },
        SizeUnit::Kilobytes(n) => {
            assert(ascii_upper("K"@) =~= "K"@);
            lemma_absolute_roundtrip(n, "K"@, u);
        },
        SizeUnit::Megabytes(n) => {
            assert(ascii_upper("M"@) =~= "M"@);
            lemma_absolute_roundtrip(n, "M"@, u);
        },
        SizeUnit::Gigabytes(n) => {
            assert(ascii_upper("G"@) =~= "G"@);
            lemma_absolute_roundtrip(n, "G"@, u);
        },
        SizeUnit::Terabytes(n) => {
            assert(ascii_upper("T"@) =~= "T"@);
            lemma_absolute_roundtrip(n, "T"@, u);
        },
        SizeUnit::Petabytes(n) => {
            assert(ascii_upper("P"@) =~= "P"@);
            lemma_absolute_roundtrip(n, "P"@, u);
        },
        SizeUnit::Exabytes(n) => {
            assert(ascii_upper("E"@) =~= "E"@);
            lemma_absolute_roundtrip(n, "E"@, u);
        },
        SizeUnit::Sectors(n) => {
            assert(upper_char('s') == 'S');
            assert(ascii_upper("s"@) =~= "S"@);
            lemma_absolute_roundtrip(n, "s"@, u);
        },
        SizeUnit::Extents(n) => {
            assert(ascii_upper(Seq::<char>::empty()) =~= Seq::<char>::empty());
            assert(decimal(n as nat) + Seq::<char>::empty() =~= decimal(n as nat));
            lemma_absolute_roundtrip(n, Seq::<char>::empty(), u);
        },
        SizeUnit::Percentage(p, tg) => {
            lemma_percentage_roundtrip(p, tg);
        },
    }
}

/// A count written with a unit letter reads the same with or without a
/// trailing `B` and in either letter case: `K`, `KB` and `kb` are
/// kibibytes, and so on up to exbibytes; `B` or `b` is bytes, `S` or `s`
/// sectors, and a bare count is extents.
pub proof fn lemma_unit_spellings(n: u64)
    ensures
        size_parse_text(decimal(n as nat) + "B"@) == Ok::<SizeUnit, Seq<char>>(SizeUnit::Bytes(n)),
        size_parse_text(decimal(n as nat) + "b"@) == Ok::<SizeUnit, Seq<char>>(SizeUnit::Bytes(n)),
        size_parse_text(decimal(n as nat) + "S"@) == Ok::<SizeUnit, Seq<char>>(SizeUnit::Sectors(n)),
        size_parse_text(decimal(n as nat) + "s"@) == Ok::<SizeUnit, Seq<char>>(SizeUnit::Sectors(n)),
        size_parse_text(decimal(n as nat)) == Ok::<SizeUnit, Seq<char>>(SizeUnit::Extents(n)),
        size_parse_text(decimal(n as nat) + "K"@) == Ok::<SizeUnit, Seq<char>>(SizeUnit::Kilobytes(n)),
        size_parse_text(decimal(n as nat) + "KB"@) == Ok::<SizeUnit, Seq<char>>(SizeUnit::Kilobytes(n)),
        size_parse_text(decimal(n as nat) + "kb"@) == Ok::<SizeUnit, Seq<char>>(SizeUnit::Kilobytes(n)),
        size_parse_text(decimal(n as nat) + "M"@) == Ok::<SizeUnit, Seq<char>>(SizeUnit::Megabytes(n)),
        size_parse_text(decimal(n as nat) + "MB"@) == Ok::<SizeUnit, Seq<char>>(SizeUnit::Megabytes(n)),
        size_parse_text(decimal(n as nat) + "mb"@) == Ok::<SizeUnit, Seq<char>>(SizeUnit::Megabytes(n)),
        size_parse_text(decimal(n as nat) + "G"@) == Ok::<SizeUnit, Seq<char>>(SizeUnit::Gigabytes(n)),
        size_parse_text(decimal(n as nat) + "GB"@) == Ok::<SizeUnit, Seq<char>>(SizeUnit::Gigabytes(n)),
        size_parse_text(decimal(n as nat) + "gb"@) == Ok::<SizeUnit, Seq<char>>(SizeUnit::Gigabytes(n)),
        size_parse_text(decimal(n as nat) + "T"@) == Ok::<SizeUnit, Seq<char>>(SizeUnit::Terabytes(n)),
        size_parse_text(decimal(n as nat) + "TB"@) == Ok::<SizeUnit, Seq<char>>(SizeUnit::Terabytes(n)),
        size_parse_text(decimal(n as nat) + "tb"@) == Ok::<SizeUnit, Seq<char>>(SizeUnit::Terabytes(n)),
        size_parse_text(decimal(n as nat) + "P"@) == Ok::<SizeUnit, Seq<char>>(SizeUnit::Petabytes(n)),
        size_parse_text(decimal(n as nat) + "PB"@) == Ok::<SizeUnit, Seq<char>>(SizeUnit::Petabytes(n)),
        size_parse_text(decimal(n as nat) + "pb"@) == Ok::<SizeUnit, Seq<char>>(SizeUnit::Petabytes(n)),
        size_parse_text(decimal(n as nat) + "E"@) == Ok::<SizeUnit, Seq<char>>(SizeUnit::Exabytes(n)),
        size_parse_text(decimal(n as nat) + "EB"@) == Ok::<SizeUnit, Seq<char>>(SizeUnit::Exabytes(n)),
        size_parse_text(decimal(n as nat) + "eb"@) == Ok::<SizeUnit, Seq<char>>(SizeUnit::Exabytes(n)),
{
    lemma_spell_b(n);
    lemma_spell_s(n);
    lemma_spell_k(n);
    lemma_spell_m(n);
    lemma_spell_g(n);
    lemma_spell_t(n);
    lemma_spell_p(n);
    lemma_spell_e(n);
}

/// The characters of the unit suffixes.
proof fn unit_names_revealed()
    ensures
        "B"@.len() == 1 && "B"@[0] == 'B',
        "K"@.len() == 1 && "K"@[0] == 'K',
        "KB"@.len() == 2 && "KB"@[0] == 'K' && "KB"@[1] == 'B',
        "M"@.len() == 1 && "M"@[0] == 'M',
        "MB"@.len() == 2 && "MB"@[0] == 'M' && "MB"@[1] == 'B',
        "G"@.len() == 1 && "G"@[0] == 'G',
        "GB"@.len() == 2 && "GB"@[0] == 'G' && "GB"@[1] == 'B',
        "T"@.len() == 1 && "T"@[0] == 'T',
        "TB"@.len() == 2 && "TB"@[0] == 'T' && "TB"@[1] == 'B',
        "P"@.len() == 1 && "P"@[0] == 'P',
        "PB"@.len() == 2 && "PB"@[0] == 'P' && "PB"@[1] == 'B',
        "E"@.len() == 1 && "E"@[0] == 'E',
        "EB"@.len() == 2 && "EB"@[0] == 'E' && "EB"@[1] == 'B',
        "S"@.len() == 1 && "S"@[0] == 'S',
{
    reveal_strlit("B");
    reveal_strlit("K");
    reveal_strlit("KB");
    reveal_strlit("M");
    reveal_strlit("MB");
    reveal_strlit("G");
    reveal_strlit("GB");
    reveal_strlit("T");
    reveal_strlit("TB");
    reveal_strlit("P");
    reveal_strlit("PB");
    reveal_strlit("E");
    reveal_strlit("EB");
    reveal_strlit("S");
}

/// The unit that a suffix of one letter `c`, or `c` and `B`, names.
proof fn lemma_unit_named_letters(u: Seq<char>, v: u64)
    requires
        1 <= u.len() <= 2,
        u.len() == 2 ==> u[1] == 'B',
    ensures
        u[0] == 'B' && u.len() == 1 ==> unit_named(u, v) == Some(SizeUnit::Bytes(v)),
        u[0] == 'S' && u.len() == 1 ==> unit_named(u, v) == Some(SizeUnit::Sectors(v)),
        u[0] == 'K' ==> unit_named(u, v) == Some(SizeUnit::Kilobytes(v)),
        u[0] == 'M' ==> unit_named(u, v) == Some(SizeUnit::Megabytes(v)),
        u[0] == 'G' ==> unit_named(u, v) == Some(SizeUnit::Gigabytes(v)),
        u[0] == 'T' ==> unit_named(u, v) == Some(SizeUnit::Terabytes(v)),
        u[0] == 'P' ==> unit_named(u, v) == Some(SizeUnit::Petabytes(v)),
        u[0] == 'E' ==> unit_named(u, v) == Some(SizeUnit::Exabytes(v)),
{
    unit_names_revealed();
    if u.len() == 1 {
        assert(u =~= seq![u[0]]);
    } else {
        assert(u =~= seq![u[0], 'B']);
    }
    if u[0] == 'B' && u.len() == 1 { assert(u =~= "B"@); }
    if u[0] == 'S' && u.len() == 1 { assert(u =~= "S"@); }
    if u[0] == 'K' { if u.len() == 1 { assert(u =~= "K"@); } else { assert(u =~= "KB"@); } }
    if u[0] == 'M' { if u.len() == 1 { assert(u =~= "M"@); } else { assert(u =~= "MB"@); } }
    if u[0] == 'G' { if u.len() == 1 { assert(u =~= "G"@); } else { assert(u =~= "GB"@); } }
    if u[0] == 'T' { if u.len() == 1 { assert(u =~= "T"@); } else { assert(u =~= "TB"@); } }
    if u[0] == 'P' { if u.len() == 1 { assert(u =~= "P"@); } else { assert(u =~= "PB"@); } }
    if u[0] == 'E' { if u.len() == 1 { assert(u =~= "E"@); } else { assert(u =~= "EB"@); } }
}

proof fn lemma_spell_one(n: u64, unit: Seq<char>, upper: Seq<char>, expect: SizeUnit)
    requires
        1 <= unit.len() <= 2,
        forall|i: int| 0 <= i < unit.len() ==> ('a' <= #[trigger] unit[i] <= 'z' || 'A' <= unit[i] <= 'Z'),
        upper.len() == unit.len(),
        forall|i: int| 0 <= i < unit.len() ==> #[trigger] upper[i] == upper_char(unit[i]),
        upper.len() == 2 ==> upper[1] == 'B',
        unit_named(upper, n) == Some(expect),
    ensures
        size_parse_text(decimal(n as nat) + unit) == Ok::<SizeUnit, Seq<char>>(expect),
{
    assert(ascii_upper(unit) =~= upper);
    lemma_unit_spelling(n, unit, expect);
}

proof fn lemma_spell_b(n: u64)
    ensures
        size_parse_text(decimal(n as nat) + "B"@) == Ok::<SizeUnit, Seq<char>>(SizeUnit::Bytes(n)),
        size_parse_text(decimal(n as nat) + "b"@) == Ok::<SizeUnit, Seq<char>>(SizeUnit::Bytes(n)),
        size_parse_text(decimal(n as nat)) == Ok::<SizeUnit, Seq<char>>(SizeUnit::Extents(n)),
{
    reveal_strlit("B");
    lemma_unit_named_letters(seq!['B'], n);
    lemma_spell_one(n, "B"@, seq!['B'], SizeUnit::Bytes(n));
    reveal_strlit("b");
    lemma_unit_named_letters(seq!['B'], n);
    lemma_spell_one(n, "b"@, seq!['B'], SizeUnit::Bytes(n));
    unit_names_revealed();
    assert(ascii_upper(Seq::<char>::empty()) =~= Seq::<char>::empty());
    lemma_unit_spelling(n, Seq::<char>::empty(), SizeUnit::Extents(n));
    assert(decimal(n as nat) + Seq::<char>::empty() =~= decimal(n as nat));
}

proof fn lemma_spell_s(n: u64)
    ensures
        size_parse_text(decimal(n as nat) + "S"@) == Ok::<SizeUnit, Seq<char>>(SizeUnit::Sectors(n)),
        size_parse_text(decimal(n as nat) + "s"@) == Ok::<SizeUnit, Seq<char>>(SizeUnit::Sectors(n)),
{
    reveal_strlit("S");
    lemma_unit_named_letters(seq!['S'], n);
    lemma_spell_one(n, "S"@, seq!['S'], SizeUnit::Sectors(n));
    reveal_strlit("s");
    lemma_unit_named_letters(seq!['S'], n);
    lemma_spell_one(n, "s"@, seq!['S'], SizeUnit::Sectors(n));
}

proof fn lemma_spell_k(n: u64)
    ensures
        size_parse_text(decimal(n as nat) + "K"@) == Ok::<SizeUnit, Seq<char>>(SizeUnit::Kilobytes(n)),
        size_parse_text(decimal(n as nat) + "KB"@) == Ok::<SizeUnit, Seq<char>>(SizeUnit::Kilobytes(n)),
        size_parse_text(decimal(n as nat) + "kb"@) == Ok::<SizeUnit, Seq<char>>(SizeUnit::Kilobytes(n)),
{
    reveal_strlit("K");
    lemma_unit_named_letters(seq!['K'], n);
    lemma_spell_one(n, "K"@, seq!['K'], SizeUnit::Kilobytes(n));
    reveal_strlit("KB");
    lemma_unit_named_letters(seq!['K', 'B'], n);
    lemma_spell_one(n, "KB"@, seq!['K', 'B'], SizeUnit::Kilobytes(n));
    reveal_strlit("kb");
    lemma_unit_named_letters(seq!['K', 'B'], n);
    lemma_spell_one(n, "kb"@, seq!['K', 'B'], SizeUnit::Kilobytes(n));
}

proof fn lemma_spell_m(n: u64)
    ensures
        size_parse_text(decimal(n as nat) + "M"@) == Ok::<SizeUnit, Seq<char>>(SizeUnit::Megabytes(n)),
        size_parse_text(decimal(n as nat) + "MB"@) == Ok::<SizeUnit, Seq<char>>(SizeUnit::Megabytes(n)),
        size_parse_text(decimal(n as nat) + "mb"@) == Ok::<SizeUnit, Seq<char>>(SizeUnit::Megabytes(n)),
{
    reveal_strlit("M");
    lemma_unit_named_letters(seq!['M'], n);
    lemma_spell_one(n, "M"@, seq!['M'], SizeUnit::Megabytes(n));
    reveal_strlit("MB");
    lemma_unit_named_letters(seq!['M', 'B'], n);
    lemma_spell_one(n, "MB"@, seq!['M', 'B'], SizeUnit::Megabytes(n));
    reveal_strlit("mb");
    lemma_unit_named_letters(seq!['M', 'B'], n);
    lemma_spell_one(n, "mb"@, seq!['M', 'B'], SizeUnit::Megabytes(n));
}

proof fn lemma_spell_g(n: u64)
    ensures
        size_parse_text(decimal(n as nat) + "G"@) == Ok::<SizeUnit, Seq<char>>(SizeUnit::Gigabytes(n)),
        size_parse_text(decimal(n as nat) + "GB"@) == Ok::<SizeUnit, Seq<char>>(SizeUnit::Gigabytes(n)),
        size_parse_text(decimal(n as nat) + "gb"@) == Ok::<SizeUnit, Seq<char>>(SizeUnit::Gigabytes(n)),
{
    reveal_strlit("G");
    lemma_unit_named_letters(seq!['G'], n);
    lemma_spell_one(n, "G"@, seq!['G'], SizeUnit::Gigabytes(n));
    reveal_strlit("GB");
    lemma_unit_named_letters(seq!['G', 'B'], n);
    lemma_spell_one(n, "GB"@, seq!['G', 'B'], SizeUnit::Gigabytes(n));
    reveal_strlit("gb");
    lemma_unit_named_letters(seq!['G', 'B'], n);
    lemma_spell_one(n, "gb"@, seq!['G', 'B'], SizeUnit::Gigabytes(n));
}

proof fn lemma_spell_t(n: u64)
    ensures
        size_parse_text(decimal(n as nat) + "T"@) == Ok::<SizeUnit, Seq<char>>(SizeUnit::Terabytes(n)),
        size_parse_text(decimal(n as nat) + "TB"@) == Ok::<SizeUnit, Seq<char>>(SizeUnit::Terabytes(n)),
        size_parse_text(decimal(n as nat) + "tb"@) == Ok::<SizeUnit, Seq<char>>(SizeUnit::Terabytes(n)),
{
    reveal_strlit("T");
    lemma_unit_named_letters(seq!['T'], n);
    lemma_spell_one(n, "T"@, seq!['T'], SizeUnit::Terabytes(n));
    reveal_strlit("TB");
    lemma_unit_named_letters(seq!['T', 'B'], n);
    lemma_spell_one(n, "TB"@, seq!['T', 'B'], SizeUnit::Terabytes(n));
    reveal_strlit("tb");
    lemma_unit_named_letters(seq!['T', 'B'], n);
    lemma_spell_one(n, "tb"@, seq!['T', 'B'], SizeUnit::Terabytes(n));
}

proof fn lemma_spell_p(n: u64)
    ensures
        size_parse_text(decimal(n as nat) + "P"@) == Ok::<SizeUnit, Seq<char>>(SizeUnit::Petabytes(n)),
        size_parse_text(decimal(n as nat) + "PB"@) == Ok::<SizeUnit, Seq<char>>(SizeUnit::Petabytes(n)),
        size_parse_text(decimal(n as nat) + "pb"@) == Ok::<SizeUnit, Seq<char>>(SizeUnit::Petabytes(n)),
{
    reveal_strlit("P");
    lemma_unit_named_letters(seq!['P'], n);
    lemma_spell_one(n, "P"@, seq!['P'], SizeUnit::Petabytes(n));
    reveal_strlit("PB");
    lemma_unit_named_letters(seq!['P', 'B'], n);
    lemma_spell_one(n, "PB"@, seq!['P', 'B'], SizeUnit::Petabytes(n));
    reveal_strlit("pb");
    lemma_unit_named_letters(seq!['P', 'B'], n);
    lemma_spell_one(n, "pb"@, seq!['P', 'B'], SizeUnit::Petabytes(n));
}

proof fn lemma_spell_e(n: u64)
    ensures
        size_parse_text(decimal(n as nat) + "E"@) == Ok::<SizeUnit, Seq<char>>(SizeUnit::Exabytes(n)),
        size_parse_text(decimal(n as nat) + "EB"@) == Ok::<SizeUnit, Seq<char>>(SizeUnit::Exabytes(n)),
        size_parse_text(decimal(n as nat) + "eb"@) == Ok::<SizeUnit, Seq<char>>(SizeUnit::Exabytes(n)),
{
    reveal_strlit("E");
    lemma_unit_named_letters(seq!['E'], n);
    lemma_spell_one(n, "E"@, seq!['E'], SizeUnit::Exabytes(n));
    reveal_strlit("EB");
    lemma_unit_named_letters(seq!['E', 'B'], n);
    lemma_spell_one(n, "EB"@, seq!['E', 'B'], SizeUnit::Exabytes(n));
    reveal_strlit("eb");
    lemma_unit_named_letters(seq!['E', 'B'], n);
    lemma_spell_one(n, "eb"@, seq!['E', 'B'], SizeUnit::Exabytes(n));
}

proof fn lemma_unit_spelling(n: u64, unit: Seq<char>, expect: SizeUnit)
    requires
        unit.len() <= 2,
        forall|i: int| 0 <= i < unit.len() ==> ('a' <= #[trigger] unit[i] <= 'z' || 'A' <= unit[i] <= 'Z'),
        unit_named(ascii_upper(unit), n) == Some(expect),
    ensures
        size_parse_text(decimal(n as nat) + unit) == Ok::<SizeUnit, Seq<char>>(expect),
{
    assert(all_ascii(unit));
    lemma_absolute_roundtrip(n, unit, expect);
}

/// The name of a filesystem, in lower case.
pub open spec fn fs_name(f: Filesystem) -> Seq<char> {
    match f {
        Filesystem::Xfs => "xfs"@,
        Filesystem::Ext4 => "ext4"@,
        Filesystem::Btrfs => "btrfs"@,
        Filesystem::Vfat => "vfat"@,
        Filesystem::Swap => "swap"@,
        Filesystem::F2FS => "f2fs"@,
        Filesystem::Ntfs => "ntfs"@,
        Filesystem::Exfat => "exfat"@,
    }
}

/// The filesystem a lower-case name denotes.
pub open spec fn fs_named(t: Seq<char>) -> Option<Filesystem> {
    if t == "xfs"@ {
        Some(Filesystem::Xfs)
    } else if t == "ext4"@ {
        Some(Filesystem::Ext4)
    } else if t == "btrfs"@ {
        Some(Filesystem::Btrfs)
    } else if t == "vfat"@ {
        Some(Filesystem::Vfat)
    } else if t == "swap"@ {
        Some(Filesystem::Swap)
    } else if t == "f2fs"@ {
        Some(Filesystem::F2FS)
    } else if t == "ntfs"@ {
        Some(Filesystem::Ntfs)
    } else if t == "exfat"@ {
        Some(Filesystem::Exfat)
    } else {
        None
    }
}

pub open spec fn unknown_fs_message(s: Seq<char>) -> Seq<char> {
    "Unsupported or unknown filesystem: '"@ + s + "'"@
}

/// A filesystem name in any letter case; no surrounding white space is
/// allowed.
pub open spec fn fs_parse_text(s: Seq<char>) -> Result<Filesystem, Seq<char>> {
    match fs_named(lower_model(s)) {
        Some(f) => Ok(f),
        None => Err(unknown_fs_message(s)),
    }
}

impl Filesystem {
    /// Parses a filesystem name, ignoring letter case.
    pub fn parse(s: &str) -> (r: Result<Filesystem, String>)
        ensures
            err_view(r) == fs_parse_text(s@),
    {
        let l = lower_text(s);
        let t = l.as_str();
        if text_eq(t, "xfs") {
            Ok(Filesystem::Xfs)
        } else if text_eq(t, "ext4") {
            Ok(Filesystem::Ext4)
        } else if text_eq(t, "btrfs") {
            Ok(Filesystem::Btrfs)
        } else if text_eq(t, "vfat") {
            Ok(Filesystem::Vfat)
        } else if text_eq(t, "swap") {
            Ok(Filesystem::Swap)
        } else if text_eq(t, "f2fs") {
            Ok(Filesystem::F2FS)
        } else if text_eq(t, "ntfs") {
            Ok(Filesystem::Ntfs)
        } else if text_eq(t, "exfat") {
            Ok(Filesystem::Exfat)
        } else {
            Err(concat3("Unsupported or unknown filesystem: '", s, "'"))
        }
    }

    /// The lower-case name of the filesystem, which `parse` reads back.
    pub fn to_string(&self) -> (r: String)
        ensures
            r@ == fs_name(*self),
    {
        let s = match self {
            Filesystem::Xfs => "xfs",
            Filesystem::Ext4 => "ext4",
            Filesystem::Btrfs => "btrfs",
            Filesystem::Vfat => "vfat",
            Filesystem::Swap => "swap",
            Filesystem::F2FS => "f2fs",
            Filesystem::Ntfs => "ntfs",
            Filesystem::Exfat => "exfat",
        };
        String::from_str(s)
    }
}

impl std::str::FromStr for Filesystem {
    type Err = String;

    fn from_str(s: &str) -> (r: Result<Self, Self::Err>)
        ensures
            err_view(r) == fs_parse_text(s@),
    {
        Filesystem::parse(s)
    }
}

/// Rendering a filesystem as its name and parsing the name gives the
/// filesystem back.
pub proof fn lemma_fs_text_roundtrip(f: Filesystem)
    ensures
        fs_parse_text(fs_name(f)) == Ok::<Filesystem, Seq<char>>(f),
{
    reveal_strlit("xfs");
    reveal_strlit("ext4");
    reveal_strlit("btrfs");
    reveal_strlit("vfat");
    reveal_strlit("swap");
    reveal_strlit("f2fs");
    reveal_strlit("ntfs");
    reveal_strlit("exfat");
    assert("xfs"@[0] == 'x' && "ext4"@[0] == 'e' && "btrfs"@[0] == 'b' && "vfat"@[0] == 'v');
    assert("swap"@[0] == 's' && "f2fs"@[0] == 'f' && "ntfs"@[0] == 'n' && "exfat"@[0] == 'e');
    let n = fs_name(f);
    assert(all_ascii(n));
    assert(ascii_lower(n) =~= n);
}


/// A filesystem name reads the same in capitals: letter case does not
/// matter to the filesystem parser.
pub proof fn lemma_fs_name_any_case(f: Filesystem)
    ensures
        fs_parse_text(ascii_upper(fs_name(f))) == Ok::<Filesystem, Seq<char>>(f),
{
    lemma_fs_text_roundtrip(f);
    reveal_strlit("xfs");
    reveal_strlit("ext4");
    reveal_strlit("btrfs");
    reveal_strlit("vfat");
    reveal_strlit("swap");
    reveal_strlit("f2fs");
    reveal_strlit("ntfs");
    reveal_strlit("exfat");
    let n = fs_name(f);
    let u = ascii_upper(n);
    assert(all_ascii(n));
    assert forall|i: int| 0 <= i < u.len() implies crate::text::is_ascii_char(#[trigger] u[i]) by {
        assert(u[i] == upper_char(n[i]));
    }
    assert(ascii_lower(u) =~= n);
    assert(ascii_lower(n) =~= n);
}

} // verus!
