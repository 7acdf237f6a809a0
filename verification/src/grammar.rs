//! The line grammar of the configuration format.
//!
//! A trimmed line has one of four shapes: a comment (`# ...`), a group
//! header (`[name]`), a blank line, or a key/value item (`key = value`).
//! Names and keys are a lowercase letter followed by lowercase letters or
//! underscores.  An item's value may be wrapped in one pair of double
//! quotes; the strictness policy decides which unquoted values survive.

use vstd::prelude::*;

use crate::group::ConfigurationItem;
use crate::numbers::all_digits;
use crate::text::{is_space, space_char, str_eq, trim, trim_str};
use crate::{Options, StringStrictness};

verus! {

/// True if `c` is a lowercase letter.
pub open spec fn is_lower(c: char) -> bool {
    97 <= c as int <= 122
}

/// True if `c` may appear in a name: a lowercase letter or an underscore.
pub open spec fn is_name_char(c: char) -> bool {
    is_lower(c) || c == '_'
}

/// True if `s` is a well-formed name: a lowercase letter followed by
/// lowercase letters or underscores.
pub open spec fn spec_is_name(s: Seq<char>) -> bool {
    &&& s.len() >= 1
    &&& is_lower(s[0])
    &&& forall|i: int| 0 <= i < s.len() ==> is_name_char(s[i])
}

/// A trimmed comment line starts with the comment marker.
pub open spec fn spec_is_comment(l: Seq<char>) -> bool {
    l.len() > 0 && l[0] == '#'
}

/// A trimmed blank line has no characters left.
pub open spec fn spec_is_blank(l: Seq<char>) -> bool {
    l.len() == 0
}

/// A group header is `[name]`, nothing more.
pub open spec fn spec_is_group_header(l: Seq<char>) -> bool {
    &&& l.len() >= 2
    &&& l[0] == '['
    &&& l.last() == ']'
    &&& spec_is_name(spec_group_name(l))
}

/// The name between the brackets of a group header.
pub open spec fn spec_group_name(l: Seq<char>) -> Seq<char> {
    l.subrange(1, l.len() - 1)
}

/// The length of the longest prefix of name characters.
pub open spec fn spec_key_len(l: Seq<char>) -> int
    decreases l.len(),
{
    if l.len() == 0 || !is_name_char(l[0]) {
        0
    } else {
        1 + spec_key_len(l.drop_first())
    }
}

/// True if `k` ends the prefix of name characters: everything before `k` is
/// a name character and the character at `k` (if any) is not.
pub open spec fn name_prefix_end(l: Seq<char>, k: int) -> bool {
    &&& 0 <= k <= l.len()
    &&& forall|i: int| 0 <= i < k ==> is_name_char(l[i])
    &&& k == l.len() || !is_name_char(l[k])
}

/// `spec_key_len` ends the prefix of name characters.
pub proof fn lemma_key_len_ends_prefix(l: Seq<char>)
    ensures
        name_prefix_end(l, spec_key_len(l)),
    decreases l.len(),
{
    if l.len() > 0 && is_name_char(l[0]) {
        lemma_key_len_ends_prefix(l.drop_first());
        let k = spec_key_len(l);
        assert forall|i: int| 0 <= i < k implies is_name_char(l[i]) by {
            if i > 0 {
                assert(is_name_char(l.drop_first()[i - 1]));
            }
        }
    }
}

/// Only `spec_key_len` ends the prefix of name characters.
pub proof fn lemma_name_prefix_end_unique(l: Seq<char>, k: int)
    requires
        name_prefix_end(l, k),
    ensures
        k == spec_key_len(l),
{
    lemma_key_len_ends_prefix(l);
    let n = spec_key_len(l);
    if k < n {
        assert(is_name_char(l[k]));
        assert(false);
    } else if n < k {
        assert(is_name_char(l[n]));
        assert(false);
    }
}

/// True if an equals sign follows the key, optionally after one white-space
/// character.
pub open spec fn spec_eq_follows(l: Seq<char>, k: int) -> bool {
    &&& k < l.len()
    &&& (l[k] == '=' || (is_space(l[k]) && k + 1 < l.len() && l[k + 1] == '='))
}

/// An item line: a name, an optional single white-space character, an
/// equals sign, and the rest of the line as raw value.
pub open spec fn spec_is_item(l: Seq<char>) -> bool {
    &&& spec_key_len(l) >= 1
    &&& is_lower(l[0])
    &&& spec_eq_follows(l, spec_key_len(l))
}

/// The position of the equals sign of an item line.
pub open spec fn spec_eq_pos(l: Seq<char>) -> int {
    if l[spec_key_len(l)] == '=' {
        spec_key_len(l)
    } else {
        spec_key_len(l) + 1
    }
}

/// The key of an item line.
pub open spec fn spec_item_key(l: Seq<char>) -> Seq<char> {
    l.subrange(0, spec_key_len(l))
}

/// The raw value of an item line: everything after the equals sign, trimmed.
pub open spec fn spec_item_value(l: Seq<char>) -> Seq<char> {
    trim(l.subrange(spec_eq_pos(l) + 1, l.len() as int))
}

/// True if the value is wrapped in one pair of double quotes.
pub open spec fn spec_has_quotes(v: Seq<char>) -> bool {
    v.len() >= 2 && v[0] == '"' && v.last() == '"'
}

/// The value with its wrapping quotes stripped, if it has them.
pub open spec fn spec_unquote(v: Seq<char>) -> Seq<char> {
    if spec_has_quotes(v) {
        v.subrange(1, v.len() - 1)
    } else {
        v
    }
}

/// True if the value holds any white-space character.
pub open spec fn spec_has_space(v: Seq<char>) -> bool {
    exists|i: int| 0 <= i < v.len() && is_space(v[i])
}

/// True if the value structurally looks like a non-string primitive:
/// a run of digits or one of the boolean tokens.
pub open spec fn spec_is_primitive(v: Seq<char>) -> bool {
    ||| (v.len() >= 1 && all_digits(v))
    ||| v == "true"@
    ||| v == "false"@
    ||| v == "yes"@
    ||| v == "no"@
    ||| v == "on"@
    ||| v == "off"@
}

/// True if the strictness policy drops this raw (still quoted) value:
/// a string-like unquoted value is rejected outright under `Very`, and
/// rejected when it holds white-space under `Forgivable`.
pub open spec fn spec_rejected(v: Seq<char>, s: StringStrictness) -> bool {
    &&& !spec_is_primitive(v)
    &&& !spec_has_quotes(v)
    &&& (s == StringStrictness::Very || (s == StringStrictness::Forgivable && spec_has_space(v)))
}

/// A line is valid when it has one of the four grammar shapes.
pub open spec fn spec_line_valid(l: Seq<char>) -> bool {
    ||| spec_is_blank(l)
    ||| spec_is_comment(l)
    ||| spec_is_group_header(l)
    ||| spec_is_item(l)
}

/// Law: a value wrapped in quotes is accepted under every strictness mode
/// and always parses to the text between the quotes, white-space included.
pub proof fn lemma_quoted_value_round_trip(v: Seq<char>, s: StringStrictness)
    requires
        spec_has_quotes(v),
    ensures
        !spec_rejected(v, s),
        spec_unquote(v) == v.subrange(1, v.len() - 1),
{
}

/// Law: for an unquoted string-like value, `Loose` always accepts,
/// `Forgivable` rejects exactly the values holding white-space, and
/// `Very` always rejects.
pub proof fn lemma_strictness_modes(v: Seq<char>)
    requires
        !spec_is_primitive(v),
        !spec_has_quotes(v),
    ensures
        !spec_rejected(v, StringStrictness::Loose),
        spec_rejected(v, StringStrictness::Forgivable) == spec_has_space(v),
        spec_rejected(v, StringStrictness::Very),
{
}

/// Returns true if `c` is a lowercase letter.
fn lower_char(c: char) -> (r: bool)
    ensures
        r == is_lower(c),
{
    let u = c as u32;
    97 <= u && u <= 122
}

/// Returns true if `c` may appear in a name.
fn name_char(c: char) -> (r: bool)
    ensures
        r == is_name_char(c),
{
    lower_char(c) || c == '_'
}

/// Length of the longest prefix of name characters of `l`.
fn key_len_of(l: &str) -> (n: usize)
    ensures
        n == spec_key_len(l@),
        n <= l@.len(),
{
    let len = l.unicode_len();
    let mut n: usize = 0;
    while n < len && name_char(l.get_char(n))
        invariant
            0 <= n <= len,
            len == l@.len(),
            forall|i: int| 0 <= i < n ==> is_name_char(l@[i]),
        decreases len - n,
    {
        n = n + 1;
    }
    proof {
        lemma_name_prefix_end_unique(l@, n as int);
    }
    n
}

/// Returns true if the trimmed line is a comment.
pub fn is_comment_line(l: &str) -> (r: bool)
    ensures
        r == spec_is_comment(l@),
{
    l.unicode_len() > 0 && l.get_char(0) == '#'
}

/// Returns true if the trimmed line is blank.
pub fn is_blank_line(l: &str) -> (r: bool)
    ensures
        r == spec_is_blank(l@),
{
    l.unicode_len() == 0
}

/// Returns true if the trimmed line is a group header `[name]`.
pub fn is_group_header(l: &str) -> (r: bool)
    ensures
        r == spec_is_group_header(l@),
{
    let len = l.unicode_len();
    if len < 2 || l.get_char(0) != '[' || l.get_char(len - 1) != ']' {
        return false;
    }
    if !lower_char(l.get_char(1)) {
        assert(!spec_is_name(spec_group_name(l@)));
        return false;
    }
    let mut i: usize = 1;
    while i < len - 1
        invariant
            1 <= i <= len - 1,
            len == l@.len(),
            len >= 2,
            is_lower(l@[1]),
            forall|j: int| 1 <= j < i ==> is_name_char(l@[j]),
        decreases len - i,
    {
        if !name_char(l.get_char(i)) {
            proof {
                assert(!is_name_char(spec_group_name(l@)[i - 1]));
            }
            return false;
        }
        i = i + 1;
    }
    proof {
        let g = spec_group_name(l@);
        assert(forall|j: int| 0 <= j < g.len() ==> is_name_char(g[j]));
        assert(g[0] == l@[1]);
    }
    true
}

/// The name of a group header line.
pub fn group_header_name(l: &str) -> (r: String)
    requires
        spec_is_group_header(l@),
    ensures
        r@ == spec_group_name(l@),
{
    let len = l.unicode_len();
    l.substring_char(1, len - 1).to_owned()
}

/// Returns true if the trimmed line has the item shape `key = value`.
pub fn is_item_line(l: &str) -> (r: bool)
    ensures
        r == spec_is_item(l@),
{
    let k = key_len_of(l);
    if k == 0 {
        return false;
    }
    if !lower_char(l.get_char(0)) {
        return false;
    }
    let len = l.unicode_len();
    if k < len && l.get_char(k) == '=' {
        return true;
    }
    if k < len && space_char(l.get_char(k)) && k + 1 < len && l.get_char(k + 1) == '=' {
        return true;
    }
    false
}

/// Returns true if the line is of a valid syntax: one of comment, group
/// header, blank, or item.
pub fn is_line_valid(line: &str) -> (r: bool)
    ensures
        r == spec_line_valid(line@),
{
    is_blank_line(line) || is_comment_line(line) || is_group_header(line) || is_item_line(line)
}

/// Splits an item line into its key and normalized value, or returns `None`
/// if the strictness policy rejects the value.  Wrapping quotes, when
/// present, are stripped from the value.
pub fn parse_line(line: &str, options: &Options) -> (r: Option<ConfigurationItem>)
    requires
        spec_is_item(line@),
    ensures
        r is Some <==> !spec_rejected(spec_item_value(line@), options.string_strictness),
        r matches Some(item) ==> {
            &&& item.key@ == spec_item_key(line@)
            &&& item.value@ == spec_unquote(spec_item_value(line@))
        },
{
    let len = line.unicode_len();
    let k = key_len_of(line);
    let key = line.substring_char(0, k).to_owned();
    let eq = if line.get_char(k) == '=' {
        k
    } else {
        k + 1
    };
    let raw = line.substring_char(eq + 1, len);
    let val = trim_str(raw);
    proof {
        assert(val@ == spec_item_value(line@));
    }
    let vlen = val.unicode_len();
    let quoted = has_quotes(val);
    if !quoted && !is_primitive(val) {
        if options.string_strictness == StringStrictness::Very {
            return None;
        }
        if options.string_strictness == StringStrictness::Forgivable && has_space(val) {
            return None;
        }
    }
    let value = if quoted {
        val.substring_char(1, vlen - 1).to_owned()
    } else {
        val.to_owned()
    };
    Some(ConfigurationItem { key, value })
}

/// Returns true if the value is wrapped in one pair of double quotes.
fn has_quotes(v: &str) -> (r: bool)
    ensures
        r == spec_has_quotes(v@),
{
    let len = v.unicode_len();
    len >= 2 && v.get_char(0) == '"' && v.get_char(len - 1) == '"'
}

/// Returns true if the value holds any white-space character.
fn has_space(v: &str) -> (r: bool)
    ensures
        r == spec_has_space(v@),
{
    let len = v.unicode_len();
    let mut i: usize = 0;
    while i < len
        invariant
            0 <= i <= len,
            len == v@.len(),
            forall|j: int| 0 <= j < i ==> !is_space(v@[j]),
        decreases len - i,
    {
        if space_char(v.get_char(i)) {
            return true;
        }
        i = i + 1;
    }
    false
}

/// Returns true if the value looks like a non-string primitive.
fn is_digit_run(v: &str) -> (r: bool)
    ensures
        r == (v@.len() >= 1 && all_digits(v@)),
{
    let len = v.unicode_len();
    if len == 0 {
        return false;
    }
    let mut i: usize = 0;
    while i < len
        invariant
            0 <= i <= len,
            len == v@.len(),
            forall|j: int| 0 <= j < i ==> crate::numbers::is_digit(v@[j]),
        decreases len - i,
    {
        let u = v.get_char(i) as u32;
        if !(48 <= u && u <= 57) {
            proof {
                assert(!crate::numbers::is_digit(v@[i as int]));
            }
            return false;
        }
        i = i + 1;
    }
    true
}

fn is_primitive(v: &str) -> (r: bool)
    ensures
        r == spec_is_primitive(v@),
{
    if is_digit_run(v) {
        return true;
    }
    str_eq(v, "true") || str_eq(v, "false") || str_eq(v, "yes") || str_eq(v, "no") || str_eq(
        v,
        "on",
    ) || str_eq(v, "off")
}

} // verus!
