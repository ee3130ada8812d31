//! Titles of outputs as the table of programs lists them.

use vstd::prelude::*;
use vstd::string::StringSliceAdditionalSpecFns;

verus! {

/// One output of the table of programs.
#[derive(Debug, Clone)]
pub struct Top {
    pub filename: String,
    pub title: String,
}

/// The language that a title is written in.
#[derive(Debug, Clone, Copy, PartialEq, Eq, Structural)]
pub enum ProjectLanguage {
    EN,
    CN,
}

/// The pattern of a character given by its code: `~{unicode `, four digits
/// and `}`.
pub open spec fn declaration_pattern() -> Seq<char> {
    "~\\{unicode\\s(\\d{4})}"@
}

/// The value of a hexadecimal digit, if the byte is one.
pub open spec fn hex_digit(b: u8) -> Option<nat> {
    if 48 <= b <= 57 {
        Some((b - 48) as nat)
    } else if 97 <= b <= 102 {
        Some((b - 87) as nat)
    } else if 65 <= b <= 70 {
        Some((b - 55) as nat)
    } else {
        None
    }
}

/// Every byte is a hexadecimal digit.
pub open spec fn all_hex(s: Seq<u8>) -> bool {
    forall|i: int| 0 <= i < s.len() ==> hex_digit(#[trigger] s[i]) is Some
}

/// The number that the hexadecimal digits `s` write.
pub open spec fn hex_value(s: Seq<u8>) -> nat
    decreases s.len(),
{
    if s.len() == 0 {
        0
    } else {
        hex_value(s.drop_last()) * 16 + hex_digit(s.last())->0
    }
}

/// The numeral without a leading plus sign.
pub open spec fn unsigned_hex(s: Seq<u8>) -> Seq<u8> {
    if s.len() > 0 && s[0] == 43 {
        s.skip(1)
    } else {
        s
    }
}

/// The code that `s` writes in hexadecimal: an optional plus sign, then one
/// or more digits, and a value of at most 32 bits.
pub open spec fn parsed_code(s: Seq<u8>) -> Option<u32> {
    let digits = unsigned_hex(s);
    if digits.len() > 0 && all_hex(digits) && hex_value(digits) <= u32::MAX {
        Some(hex_value(digits) as u32)
    } else {
        None
    }
}

/// The code is that of a character: at most `10FFFF` and no surrogate.
pub open spec fn is_scalar(code: u32) -> bool {
    code <= 0x10FFFF && !(0xD800 <= code <= 0xDFFF)
}

/// The text that a code given in hexadecimal stands for: its character, or
/// nothing where `s` is no such code.
pub open spec fn converted(s: Seq<u8>) -> Seq<char> {
    match parsed_code(s) {
        Some(code) => if is_scalar(code) {
            seq![code as char]
        } else {
            Seq::<char>::empty()
        },
        None => Seq::<char>::empty(),
    }
}

/// More digits do not write a smaller number.
proof fn lemma_hex_value_grows(s: Seq<u8>, i: int)
    requires
        all_hex(s),
        0 <= i <= s.len(),
    ensures
        hex_value(s.take(i)) <= hex_value(s),
    decreases s.len() - i,
{
    if i == s.len() {
        assert(s.take(i) =~= s);
    } else {
        assert(s.take(i + 1).drop_last() =~= s.take(i));
        assert(hex_digit(s[i]) is Some);
        lemma_hex_value_grows(s, i + 1);
    }
}

/// Reads a code as `u32::from_str_radix` does with radix 16.
pub fn parse_code(s: &[u8]) -> (r: Option<u32>)
    ensures
        r == parsed_code(s@),
{
    let n = s.len();
    let start: usize = if n > 0 && s[0] == 43u8 {
        1
    } else {
        0
    };
    let ghost digits = unsigned_hex(s@);
    assert(digits =~= s@.skip(start as int));
    if start == n {
        return None;
    }
    let mut value: u32 = 0;
    let mut i: usize = start;
    assert(digits.take(0) =~= Seq::<u8>::empty());
    while i < n
        invariant
            n == s@.len(),
            start <= i <= n,
            start < n,
            digits == s@.skip(start as int),
            digits == unsigned_hex(s@),
            all_hex(digits.take(i - start)),
            value == hex_value(digits.take(i - start)),
        decreases n - i,
    {
        let b = s[i];
        assert(digits[i - start] == b);
        assert(digits.take(i - start + 1).drop_last() =~= digits.take(i - start));
        let d: u32 = if 48u8 <= b && b <= 57u8 {
            (b - 48u8) as u32
        } else if 97u8 <= b && b <= 102u8 {
            (b - 87u8) as u32
        } else if 65u8 <= b && b <= 70u8 {
            (b - 55u8) as u32
        } else {
            assert(hex_digit(digits[i - start]) is None);
            return None;
        };
        if value > (u32::MAX - d) / 16 {
            proof {
                assert(value * 16 + d > u32::MAX);
                assert(hex_value(digits.take(i - start + 1)) == value * 16 + d);
                if all_hex(digits) {
                    lemma_hex_value_grows(digits, i - start + 1);
                }
            }
            return None;
        }
        value = value * 16 + d;
        assert forall|k: int| 0 <= k < i - start + 1 implies hex_digit(
            #[trigger] digits.take(i - start + 1)[k],
        ) is Some by {
            if k < i - start {
                assert(digits.take(i - start)[k] == digits[k]);
            }
        }
        i = i + 1;
    }
    assert(digits.take(n - start) =~= digits);
    Some(value)
}

/// `std`'s `char::from_u32`: the character with the code `code`, which
/// there is unless the code is a surrogate or beyond `10FFFF`.
#[verifier::external_body]
fn char_of(code: u32) -> (r: Option<char>)
    ensures
        r is Some <==> is_scalar(code),
        r matches Some(c) ==> c == code as char,
{
    char::from_u32(code)
}

/// `std`'s `String::from` for a character: the text of that one character.
#[verifier::external_body]
fn text_of(c: char) -> (r: String)
    ensures
        r@ == seq![c],
{
    String::from(c)
}

/// The text that a code given in hexadecimal stands for: `0025` gives `%`.
/// Nothing where `source` is no code of a character.
pub fn unicode_convert(source: &str) -> (r: String)
    ensures
        r@ == converted(source.spec_bytes()),
{
    match parse_code(source.as_bytes()) {
        Some(code) => match char_of(code) {
            Some(c) => text_of(c),
            None => String::new(),
        },
        None => String::new(),
    }
}

/// What the `regex` crate's `Regex::replace_all` makes of `source` for the
/// regular expression `pattern`, each match giving way to what
/// `unicode_convert` makes of its first group.
pub uninterp spec fn declarations_replaced(pattern: Seq<char>, source: Seq<char>) -> Seq<char>;

/// The `regex` crate's `Regex::replace_all`, with the expression compiled
/// from `pattern`: every match in `source`, from the left and without
/// overlap, gives way to what `unicode_convert` makes of the first group of
/// the match. What matches is the crate's to say, so the result has a name.
/// Only the pattern of this module is let in, which compiles.
#[verifier::external_body]
fn replace_declarations(pattern: &str, source: &str) -> (r: String)
    requires
        pattern@ == declaration_pattern(),
    ensures
        r@ == declarations_replaced(pattern@, source@),
{
    let re = regex::Regex::new(pattern).unwrap();
    re.replace_all(source, |cap: &regex::Captures| unicode_convert(&cap[1])).into_owned()
}

/// The title with each character given by its code, as in
/// `~{unicode 0025}` for `%`, written out.
pub fn handle_unicode_declaration(source: &str) -> (r: String)
    ensures
        r@ == declarations_replaced(declaration_pattern(), source@),
{
    replace_declarations("~\\{unicode\\s(\\d{4})}", source)
}

/// What `std`'s `str::to_lowercase` makes of a text.
pub uninterp spec fn lowercased(s: Seq<char>) -> Seq<char>;

/// `std`'s `str::to_lowercase`: the text in lower case, as Unicode defines
/// it. The definition is Unicode's, so the result has a name.
#[verifier::external_body]
fn lowercase(s: &str) -> (r: String)
    ensures
        r@ == lowercased(s@),
{
    s.to_lowercase()
}

/// What `std`'s `str::trim` leaves of a text.
pub uninterp spec fn trimmed(s: Seq<char>) -> Seq<char>;

/// `std`'s `str::trim`: the text without the white space at its start and
/// end, white space being what Unicode defines as such. The definition is
/// Unicode's, so the result has a name.
#[verifier::external_body]
fn trim(s: &str) -> (r: String)
    ensures
        r@ == trimmed(s@),
{
    s.trim().to_owned()
}

/// The title has a character beyond ASCII.
pub open spec fn has_wide_char(title: Seq<char>) -> bool {
    exists|i: int| 0 <= i < title.len() && #[trigger] title[i] > '\u{7F}'
}

/// No character comes before the one with code zero.
proof fn lemma_char_floor(c: char)
    ensures
        '\0' <= c,
{
}

/// A text that is not all ASCII has a character beyond ASCII.
proof fn lemma_wide_char(s: Seq<char>)
    requires
        !vstd::utf8::is_ascii_chars(s),
    ensures
        has_wide_char(s),
{
    let i = choose|i: int| 0 <= i < s.len() && !('\0' <= #[trigger] s[i] <= '\u{7f}');
    lemma_char_floor(s[i]);
}

/// The language of a title: Chinese if it has a character beyond ASCII.
pub fn top_language(title: &str) -> (r: ProjectLanguage)
    ensures
        r == (if has_wide_char(title@) {
            ProjectLanguage::CN
        } else {
            ProjectLanguage::EN
        }),
{
    if title.is_ascii() {
        assert(!has_wide_char(title@));
        ProjectLanguage::EN
    } else {
        proof {
            lemma_wide_char(title@);
        }
        ProjectLanguage::CN
    }
}

/// The word for a kind of output in a language; nothing for an unknown kind.
pub open spec fn prefix_of(symbol: Seq<char>, language: ProjectLanguage) -> Seq<char> {
    if symbol == "T"@ {
        match language {
            ProjectLanguage::EN => "Table"@,
            ProjectLanguage::CN => "表"@,
        }
    } else if symbol == "F"@ {
        match language {
            ProjectLanguage::EN => "Figure"@,
            ProjectLanguage::CN => "图"@,
        }
    } else if symbol == "L"@ {
        match language {
            ProjectLanguage::EN => "Listing"@,
            ProjectLanguage::CN => "列表"@,
        }
    } else {
        Seq::<char>::empty()
    }
}

/// The word that a title starts with, by the kind of output (`T`, `F` or
/// `L`) and the language.
pub fn title_prefix(symbol: &str, language: &ProjectLanguage) -> (r: String)
    ensures
        r@ == prefix_of(symbol@, *language),
{
    let symbol = String::from_str(symbol);
    if symbol == String::from_str("T") {
        match language {
            ProjectLanguage::EN => String::from_str("Table"),
            ProjectLanguage::CN => String::from_str("表"),
        }
    } else if symbol == String::from_str("F") {
        match language {
            ProjectLanguage::EN => String::from_str("Figure"),
            ProjectLanguage::CN => String::from_str("图"),
        }
    } else if symbol == String::from_str("L") {
        match language {
            ProjectLanguage::EN => String::from_str("Listing"),
            ProjectLanguage::CN => String::from_str("列表"),
        }
    } else {
        String::new()
    }
}

/// The language that a title is written in.
pub open spec fn language_of(title: Seq<char>) -> ProjectLanguage {
    if has_wide_char(title) {
        ProjectLanguage::CN
    } else {
        ProjectLanguage::EN
    }
}

/// The line of a title: the word for the kind of output in the language
/// of the title, the number, a colon and the title.
pub open spec fn line_of(number: Seq<char>, title: Seq<char>, output_type: Seq<char>) -> Seq<
    char,
> {
    prefix_of(output_type, language_of(title)) + " "@ + number + ": "@ + title
}

/// The full title of an output: the line of its title with the declared
/// characters written out, the white space around it cut off.
pub open spec fn full_title(number: Seq<char>, title: Seq<char>, output_type: Seq<char>) -> Seq<
    char,
> {
    trimmed(line_of(number, declarations_replaced(declaration_pattern(), title), output_type))
}

/// The line of a title: the word for the kind of output in the language
/// of the title, the number, a colon and the title.
pub fn title_line(number: &str, title: &str, output_type: &str) -> (r: String)
    ensures
        r@ == line_of(number@, title@, output_type@),
{
    let mut line = title_prefix(output_type, &top_language(title));
    line.append(" ");
    line.append(number);
    line.append(": ");
    line.append(title);
    line
}

/// The output that a row of the table of programs lists: its file is named
/// after the output in lower case.
pub fn top_entry(name: &str, number: &str, title: &str, output_type: &str) -> (r: Top)
    ensures
        r.filename@ == lowercased(name@) + ".rtf"@,
        r.title@ == full_title(number@, title@, output_type@),
{
    let mut filename = lowercase(name);
    filename.append(".rtf");
    let written = handle_unicode_declaration(title);
    let line = title_line(number, written.as_str(), output_type);
    Top { filename, title: trim(line.as_str()) }
}

} // verus!

