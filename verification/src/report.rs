//! The closing report of a run: how many lines were read and removed, with
//! the numbers written as a locale writes them.
//!
//! Locales and the formatting of numbers are `num_format`'s.

use vstd::prelude::*;
use vstd::string::StringExecFns;

verus! {

#[verifier::external_type_specification]
#[verifier::external_body]
pub struct ExLocale(num_format::Locale);

/// The locale that `num_format` knows under `name`, if it knows one.
pub uninterp spec fn locale_named(name: Seq<char>) -> Option<num_format::Locale>;

/// The digits and separators that `num_format` writes for `n` in `locale`.
pub uninterp spec fn formatted(n: u64, locale: num_format::Locale) -> Seq<char>;

/// The locale to report in: the one that `name` names or, where it names
/// none, English.
pub open spec fn locale_or_english(name: Seq<char>) -> num_format::Locale {
    match locale_named(name) {
        Some(locale) => locale,
        None => locale_named("en"@).unwrap(),
    }
}

/// The sentence of the report, around the two numbers as they are written.
pub open spec fn summary_text(read: Seq<char>, removed: Seq<char>) -> Seq<char> {
    "Removed "@ + removed + " lines from a total of "@ + read + " lines read."@
}

/// Looks a locale up by its name with `num_format::Locale::from_name`.
///
/// Trusted: the result is the locale that the name stands for, `None` where
/// the name stands for none, and the name `en` stands for one.
#[verifier::external_body]
pub(crate) fn find_locale(name: &str) -> (r: Option<num_format::Locale>)
    ensures
        r == locale_named(name@),
        name@ == "en"@ ==> r is Some,
{
    num_format::Locale::from_name(name).ok()
}

/// Writes `n` in `locale` with `num_format::ToFormattedString`.
///
/// Trusted: the result is what `num_format` writes for this number in this
/// locale.
#[verifier::external_body]
pub(crate) fn format_count(n: u64, locale: &num_format::Locale) -> (r: String)
    ensures
        r@ == formatted(n, *locale),
{
    num_format::ToFormattedString::to_formatted_string(&n, locale)
}

/// The locale for number formatting: the one that `locale_str` names, and
/// English where it names none.
pub fn get_locale(locale_str: &str) -> (r: num_format::Locale)
    ensures
        r == locale_or_english(locale_str@),
{
    match find_locale(locale_str) {
        Some(locale) => locale,
        None => find_locale("en").unwrap(),
    }
}

/// The sentence of the report for two numbers that have been written out.
pub fn summary_line(read: &str, removed: &str) -> (r: String)
    ensures
        r@ == summary_text(read@, removed@),
{
    let mut line = String::from_str("Removed ");
    line.append(removed);
    line.append(" lines from a total of ");
    line.append(read);
    line.append(" lines read.");
    line
}

/// The report of a run: the lines removed and the lines read, each written
/// in the locale that `locale_str` names, or in English where it names none.
pub fn summary(total_lines_read: u64, total_lines_removed: u64, locale_str: &str) -> (r: String)
    ensures
        r@ == summary_text(
            formatted(total_lines_read, locale_or_english(locale_str@)),
            formatted(total_lines_removed, locale_or_english(locale_str@)),
        ),
{
    let locale = get_locale(locale_str);
    let removed = format_count(total_lines_removed, &locale);
    let read = format_count(total_lines_read, &locale);
    summary_line(read.as_str(), removed.as_str())
}

} // verus!
