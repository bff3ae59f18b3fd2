//! Building the text that Island shows and writes.
use crate::path::FilePath;
use vstd::prelude::*;
use vstd::string::*;
use vstd::utf8::{decode_utf8, valid_utf8};

verus! {

/// What a list of strings holds.
pub open spec fn text_views(list: Seq<String>) -> Seq<Seq<char>> {
    Seq::new(list.len(), |i: int| list[i]@)
}

/// The parts one after the other, with `separator` between them.
pub open spec fn joined(parts: Seq<Seq<char>>, separator: Seq<char>) -> Seq<char>
    decreases parts.len(),
{
    if parts.len() == 0 {
        seq![]
    } else if parts.len() == 1 {
        parts[0]
    } else {
        joined(parts.drop_last(), separator) + separator + parts.last()
    }
}

/// The parts one after the other.
pub fn join_texts(parts: &Vec<String>, separator: &str) -> (r: String)
    ensures
        r@ == joined(text_views(parts@), separator@),
{
    let ghost views = text_views(parts@);
    let mut r = String::new();
    let mut i: usize = 0;
    while i < parts.len()
        invariant
            i <= parts@.len(),
            views == text_views(parts@),
            r@ == joined(views.take(i as int), separator@),
        decreases parts@.len() - i,
    {
        proof {
            assert(views.take(i + 1).drop_last() =~= views.take(i as int));
            assert(views.take(i + 1).last() == parts@[i as int]@);
        }
        if i > 0 {
            r.append(separator);
        }
        r.append(parts[i].as_str());
        proof {
            if i == 0 {
                assert(r@ =~= views.take(1)[0]);
            }
        }
        i += 1;
    }
    assert(views.take(i as int) =~= views);
    r
}

/// One text behind the other.
pub fn concat_texts(first: &str, second: &str) -> (r: String)
    ensures
        r@ == first@ + second@,
{
    let mut r = String::from_str(first);
    r.append(second);
    r
}

/// A copy of a list of strings.
pub(crate) fn copy_texts(list: &Vec<String>) -> (r: Vec<String>)
    ensures
        text_views(r@) == text_views(list@),
{
    let mut r: Vec<String> = Vec::new();
    let mut i: usize = 0;
    while i < list.len()
        invariant
            i <= list@.len(),
            r@.len() == i,
            forall|j: int| 0 <= j < i ==> (#[trigger] r@[j])@ == list@[j]@,
        decreases list@.len() - i,
    {
        r.push(list[i].clone());
        i += 1;
    }
    assert(text_views(r@) =~= text_views(list@));
    r
}

/// The decimal digit of a number below ten.
pub open spec fn digit(d: nat) -> char {
    if d == 0 {
        '0'
    } else if d == 1 {
        '1'
    } else if d == 2 {
        '2'
    } else if d == 3 {
        '3'
    } else if d == 4 {
        '4'
    } else if d == 5 {
        '5'
    } else if d == 6 {
        '6'
    } else if d == 7 {
        '7'
    } else if d == 8 {
        '8'
    } else {
        '9'
    }
}

/// A number in decimal notation.
pub open spec fn decimal(n: nat) -> Seq<char>
    decreases n,
{
    if n < 10 {
        seq![digit(n)]
    } else {
        decimal(n / 10).push(digit(n % 10))
    }
}

fn digit_text(d: usize) -> (r: &'static str)
    requires
        d < 10,
    ensures
        r@ == seq![digit(d as nat)],
{
    proof {
        reveal_strlit("0");
        reveal_strlit("1");
        reveal_strlit("2");
        reveal_strlit("3");
        reveal_strlit("4");
        reveal_strlit("5");
        reveal_strlit("6");
        reveal_strlit("7");
        reveal_strlit("8");
        reveal_strlit("9");
    }
    let r = match d {
        0 => "0",
        1 => "1",
        2 => "2",
        3 => "3",
        4 => "4",
        5 => "5",
        6 => "6",
        7 => "7",
        8 => "8",
        _ => "9",
    };
    assert(r@ =~= seq![digit(d as nat)]);
    r
}

/// A number in decimal notation.
pub fn decimal_text(n: usize) -> (r: String)
    ensures
        r@ == decimal(n as nat),
    decreases n,
{
    if n < 10 {
        String::from_str(digit_text(n))
    } else {
        let mut r = decimal_text(n / 10);
        r.append(digit_text(n % 10));
        r
    }
}

/// A string between double quotes, with escapes, as the standard `Debug` format writes it.
pub uninterp spec fn debug_form(text: Seq<char>) -> Seq<char>;

/// A printable ASCII character other than the double quote and the backslash.
pub open spec fn is_plain_debug_char(c: char) -> bool {
    ' ' <= c && c <= '~' && c != '"' && c != '\\'
}

/// The text holds nothing that the standard `Debug` format escapes.
pub open spec fn is_plain_debug_text(text: Seq<char>) -> bool {
    forall|i: int| 0 <= i < text.len() ==> is_plain_debug_char(#[trigger] text[i])
}

/// The text between double quotes.
pub open spec fn double_quoted(text: Seq<char>) -> Seq<char> {
    seq!['"'] + text + seq!['"']
}

/// Calls the standard `Debug` format of a string. The result depends on the string alone. A
/// string of printable ASCII without double quotes and backslashes stands between double
/// quotes as it is; which other characters are escaped, and how, is not stated.
#[verifier::external_body]
fn debug_text(text: &str) -> (r: String)
    ensures
        r@ == debug_form(text@),
        is_plain_debug_text(text@) ==> r@ == double_quoted(text@),
{
    format!("{:?}", text)
}

/// Strings in brackets, with commas between them.
pub open spec fn bracketed(items: Seq<Seq<char>>) -> Seq<char> {
    "["@ + joined(items, ", "@) + "]"@
}

/// Strings in brackets, with commas between them.
pub fn bracketed_text(items: &Vec<String>) -> (r: String)
    ensures
        r@ == bracketed(text_views(items@)),
{
    let mut r = concat_texts("[", join_texts(items, ", ").as_str());
    r.append("]");
    r
}

/// A list of strings, as the standard `Debug` format writes it.
pub open spec fn debug_list(list: Seq<Seq<char>>) -> Seq<char> {
    bracketed(list.map_values(|t: Seq<char>| debug_form(t)))
}

/// Every text holds nothing that the standard `Debug` format escapes.
pub open spec fn are_plain_debug_texts(list: Seq<Seq<char>>) -> bool {
    forall|i: int| 0 <= i < list.len() ==> is_plain_debug_text(#[trigger] list[i])
}

/// A list of strings between double quotes, in brackets.
pub open spec fn quoted_list(list: Seq<Seq<char>>) -> Seq<char> {
    bracketed(list.map_values(|t: Seq<char>| double_quoted(t)))
}

/// A list of strings, quoted and in brackets. Plain strings stand between double quotes as
/// they are.
pub fn debug_list_text(list: &Vec<String>) -> (r: String)
    ensures
        r@ == debug_list(text_views(list@)),
        are_plain_debug_texts(text_views(list@)) ==> r@ == quoted_list(text_views(list@)),
{
    let mut quoted: Vec<String> = Vec::new();
    let mut i: usize = 0;
    while i < list.len()
        invariant
            i <= list@.len(),
            quoted@.len() == i,
            forall|j: int|
                0 <= j < i ==> (#[trigger] quoted@[j])@ == debug_form(list@[j]@) && (
                is_plain_debug_text(list@[j]@) ==> quoted@[j]@ == double_quoted(list@[j]@)),
        decreases list@.len() - i,
    {
        quoted.push(debug_text(list[i].as_str()));
        i += 1;
    }
    proof {
        assert(text_views(quoted@) =~= text_views(list@).map_values(
            |t: Seq<char>| debug_form(t),
        ));
        let views = text_views(list@);
        if are_plain_debug_texts(views) {
            assert forall|j: int| 0 <= j < quoted@.len() implies (#[trigger] quoted@[j])@
                == double_quoted(views[j]) by {
                assert(is_plain_debug_text(views[j]));
            }
            assert(text_views(quoted@) =~= views.map_values(|t: Seq<char>| double_quoted(t)));
        }
    }
    bracketed_text(&quoted)
}

/// The characters that bytes encode in UTF-8, with replacement characters for what is no
/// UTF-8.
pub uninterp spec fn lossy_form(bytes: Seq<u8>) -> Seq<char>;

/// Calls `String::from_utf8_lossy`. The result depends on the bytes alone, and is what they
/// encode where they are UTF-8. Where the replacement characters stand otherwise is not
/// stated.
#[verifier::external_body]
fn lossy_text(bytes: &[u8]) -> (r: String)
    ensures
        r@ == lossy_form(bytes@),
        valid_utf8(bytes@) ==> r@ == decode_utf8(bytes@),
{
    String::from_utf8_lossy(bytes).into_owned()
}

/// Of the paths, those that are UTF-8 are shown as what they encode.
pub open spec fn shown_as_text(paths: Seq<Seq<u8>>) -> bool {
    forall|i: int|
        0 <= i < paths.len() && valid_utf8(#[trigger] paths[i]) ==> lossy_form(paths[i])
            == decode_utf8(paths[i])
}

/// A path as it is shown.
pub fn path_text(path: &FilePath) -> (r: String)
    ensures
        r@ == lossy_form(path@),
        valid_utf8(path@) ==> r@ == decode_utf8(path@),
{
    lossy_text(path.bytes.as_slice())
}

/// A character that a TOML basic string holds as it is.
pub open spec fn is_plain_toml_char(c: char) -> bool {
    c >= ' ' && c != '\u{7f}' && c != '"' && c != '\\'
}

/// A string value in TOML notation.
pub uninterp spec fn toml_string_form(text: Seq<char>) -> Seq<char>;

/// Calls `toml::Value`'s `Display` on a string value. The result depends on the string
/// alone. A string without control characters, double quotes and backslashes stands between
/// double quotes as it is; which quotes and escapes the others get is not stated.
#[verifier::external_body]
pub(crate) fn toml_string_text(text: &str) -> (r: String)
    ensures
        r@ == toml_string_form(text@),
        (forall|i: int| 0 <= i < text@.len() ==> is_plain_toml_char(#[trigger] text@[i])) ==> r@
            == double_quoted(text@),
{
    toml::Value::String(text.to_string()).to_string()
}

} // verus!
