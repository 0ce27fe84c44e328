//! AWS profiles: the sections of the credentials and configuration files,
//! the profiles they describe, SSO sessions and the expiry of their tokens.

use vstd::prelude::*;

use vstd::utf8::encode_utf8;
use crate::aws::signer::{
    days_before_month, days_before_year, hashable, hex, to_hex, HASH_INPUT_LIMIT,
};
use crate::events::lemma_deep_view_push;
use crate::text::{
    chars_of, find_char, find_char_from, is_digit, lemma_find_char_from, occurs_at, parse_i64,
    parsed_i64, span_pieces, split_from, split_spans, starts_with_at, str_equals, string_of,
    text_of, trim_bounds, trimmed, Span,
};

verus! {

/// An AWS profile: keys, region, endpoint and the fields of its SSO setup.
///
/// The engine reads it as plain configuration; loading and refreshing it from
/// disk is the caller's business.
#[derive(Debug)]
pub struct AWSProfile {
    pub name: String,
    pub access_key_id: String,
    pub secret_access_key: String,
    pub region: String,
    pub endpoint_url: String,
    pub session_token: String,
    pub expiration: i64,
    pub sso_start_url: String,
    pub sso_region: String,
    pub sso_account_id: String,
    pub sso_role_name: String,
    pub sso_session_name: String,
}

/// The mathematical value of an [`AWSProfile`].
pub ghost struct AWSProfileView {
    pub name: Seq<char>,
    pub access_key_id: Seq<char>,
    pub secret_access_key: Seq<char>,
    pub region: Seq<char>,
    pub endpoint_url: Seq<char>,
    pub session_token: Seq<char>,
    pub expiration: int,
    pub sso_start_url: Seq<char>,
    pub sso_region: Seq<char>,
    pub sso_account_id: Seq<char>,
    pub sso_role_name: Seq<char>,
    pub sso_session_name: Seq<char>,
}

impl View for AWSProfile {
    type V = AWSProfileView;

    open spec fn view(&self) -> AWSProfileView {
        AWSProfileView {
            name: self.name@,
            access_key_id: self.access_key_id@,
            secret_access_key: self.secret_access_key@,
            region: self.region@,
            endpoint_url: self.endpoint_url@,
            session_token: self.session_token@,
            expiration: self.expiration as int,
            sso_start_url: self.sso_start_url@,
            sso_region: self.sso_region@,
            sso_account_id: self.sso_account_id@,
            sso_role_name: self.sso_role_name@,
            sso_session_name: self.sso_session_name@,
        }
    }
}

impl DeepView for AWSProfile {
    type V = AWSProfileView;

    open spec fn deep_view(&self) -> AWSProfileView {
        self@
    }
}

/// The profile with every text empty and no expiration.
pub open spec fn empty_profile() -> AWSProfileView {
    AWSProfileView {
        name: Seq::empty(),
        access_key_id: Seq::empty(),
        secret_access_key: Seq::empty(),
        region: Seq::empty(),
        endpoint_url: Seq::empty(),
        session_token: Seq::empty(),
        expiration: 0,
        sso_start_url: Seq::empty(),
        sso_region: Seq::empty(),
        sso_account_id: Seq::empty(),
        sso_role_name: Seq::empty(),
        sso_session_name: Seq::empty(),
    }
}

impl Default for AWSProfile {
    fn default() -> (r: Self)
        ensures
            r@ == empty_profile(),
    {
        AWSProfile {
            name: String::new(),
            access_key_id: String::new(),
            secret_access_key: String::new(),
            region: String::new(),
            endpoint_url: String::new(),
            session_token: String::new(),
            expiration: 0,
            sso_start_url: String::new(),
            sso_region: String::new(),
            sso_account_id: String::new(),
            sso_role_name: String::new(),
            sso_session_name: String::new(),
        }
    }
}

impl Clone for AWSProfile {
    fn clone(&self) -> (r: Self)
        ensures
            r@ == self@,
    {
        AWSProfile {
            name: self.name.clone(),
            access_key_id: self.access_key_id.clone(),
            secret_access_key: self.secret_access_key.clone(),
            region: self.region.clone(),
            endpoint_url: self.endpoint_url.clone(),
            session_token: self.session_token.clone(),
            expiration: self.expiration,
            sso_start_url: self.sso_start_url.clone(),
            sso_region: self.sso_region.clone(),
            sso_account_id: self.sso_account_id.clone(),
            sso_role_name: self.sso_role_name.clone(),
            sso_session_name: self.sso_session_name.clone(),
        }
    }
}

/// `s` without the characters at its end that are neither digits nor colons.
pub open spec fn trim_time_suffix(s: Seq<char>) -> Seq<char>
    decreases s.len(),
{
    if s.len() > 0 && !(is_digit(s.last()) || s.last() == ':') {
        trim_time_suffix(s.drop_last())
    } else {
        s
    }
}

/// The number that a field of a timestamp denotes; zero where it is none.
pub open spec fn field_value(s: Seq<char>) -> int {
    match parsed_i64(s) {
        Some(n) => n,
        None => 0,
    }
}

/// The three numbers that a text of three fields around two separators
/// denotes; none for a text of fewer or more fields.
pub open spec fn three_fields(text: Seq<char>, sep: char) -> Option<(int, int, int)> {
    let pieces = split_from(text, sep, 0);
    if pieces.len() == 3 {
        Some((field_value(pieces[0]), field_value(pieces[1]), field_value(pieces[2])))
    } else {
        None
    }
}

/// The seconds since the Unix epoch of a date and a time of day, where all
/// days are counted from the fields as they are. Zero for a year beyond 9999
/// or a month beyond 13, and where the result is no 64-bit number.
pub open spec fn fields_seconds(date: (int, int, int), time: (int, int, int)) -> int {
    if date.0 > 9999 || date.1 > 13 {
        0
    } else {
        let days = days_before_year(date.0) + days_before_month(date.0, date.1) + date.2 - 1;
        let total = days * 86400 + time.0 * 3600 + time.1 * 60 + time.2;
        if i64::MIN <= total <= i64::MAX {
            total
        } else {
            0
        }
    }
}

/// The seconds since the Unix epoch that a timestamp of the form
/// `YYYY-MM-DDTHH:MM:SS`, with any suffix, denotes in UTC. Zero for a text
/// of fewer than 19 bytes or of another form.
pub open spec fn iso8601_seconds(t: Seq<char>) -> int {
    let parts = split_from(t, 'T', 0);
    if encode_utf8(t).len() < 19 || parts.len() != 2 {
        0
    } else {
        match (three_fields(parts[0], '-'), three_fields(trim_time_suffix(parts[1]), ':')) {
            (Some(date), Some(time)) => fields_seconds(date, time),
            _ => 0,
        }
    }
}

/// The days before a year are at most 366 for each year since 1970.
proof fn lemma_days_before_year_bound(y: int)
    ensures
        0 <= days_before_year(y),
        y >= 1970 ==> days_before_year(y) <= 366 * (y - 1970),
        y < 1970 ==> days_before_year(y) == 0,
    decreases y,
{
    if y > 1970 {
        lemma_days_before_year_bound(y - 1);
    }
}

/// The days before a month are at most 31 for each month before it.
proof fn lemma_days_before_month_bound(y: int, m: int)
    ensures
        0 <= days_before_month(y, m),
        m >= 1 ==> days_before_month(y, m) <= 31 * (m - 1),
        m < 1 ==> days_before_month(y, m) == 0,
    decreases m,
{
    if m > 1 {
        lemma_days_before_month_bound(y, m - 1);
    }
}

fn parse_field(s: &[char], span: Span) -> (r: i64)
    requires
        span.start <= span.end <= s@.len(),
    ensures
        r == field_value(s@.subrange(span.start as int, span.end as int)),
{
    let piece = vstd::slice::slice_subrange(s, span.start, span.end);
    match parse_i64(piece) {
        Some(n) => n,
        None => 0,
    }
}

/// Reads three numbers from a text of three fields.
fn parse_three(text: &[char], sep: char) -> (r: Option<(i64, i64, i64)>)
    ensures
        match r {
            Some(f) => three_fields(text@, sep) == Some((f.0 as int, f.1 as int, f.2 as int)),
            None => three_fields(text@, sep) is None,
        },
{
    let spans = split_spans(text, sep);
    if spans.len() != 3 {
        return None;
    }
    proof {
        assert forall|i: int| 0 <= i < 3 implies split_from(text@, sep, 0)[i] == text@.subrange(
            spans@[i].start as int,
            spans@[i].end as int,
        ) by {
            assert(span_pieces(text@, spans@)[i] == text@.subrange(
                spans@[i].start as int,
                spans@[i].end as int,
            ));
        }
    }
    Some((parse_field(text, spans[0]), parse_field(text, spans[1]), parse_field(text, spans[2])))
}

/// Counts the days from 1970 to the beginning of a year.
fn count_days_before_year(year: i64) -> (days: i64)
    requires
        year <= 9999,
    ensures
        days == days_before_year(year as int),
        0 <= days <= 366 * 8029,
{
    let mut days: i64 = 0;
    let mut y: i64 = 1970;
    proof {
        lemma_days_before_year_bound(year as int);
    }
    while y < year
        invariant
            1970 <= y,
            y <= year || year < 1970,
            year < 1970 ==> y == 1970,
            year <= 9999,
            days == days_before_year(y as int),
            0 <= days <= 366 * (y - 1970),
        decreases year - y,
    {
        days = days + if y % 4 == 0 && (y % 100 != 0 || y % 400 == 0) {
            366
        } else {
            365
        };
        y = y + 1;
    }
    proof {
        lemma_days_before_year_bound(year as int);
        lemma_days_before_year_bound(y as int);
    }
    days
}

/// Counts the days of a year that lie before a month.
fn count_days_before_month(year: i64, month: i64) -> (days: i64)
    requires
        month <= 13,
    ensures
        days == days_before_month(year as int, month as int),
        0 <= days <= 31 * 12,
{
    let leap = year % 4 == 0 && (year % 100 != 0 || year % 400 == 0);
    let mut days: i64 = 0;
    let mut m: i64 = 1;
    proof {
        lemma_days_before_month_bound(year as int, month as int);
    }
    while m < month
        invariant
            1 <= m,
            m <= month || month < 1,
            month < 1 ==> m == 1,
            month <= 13,
            leap == crate::aws::signer::is_leap_year(year as int),
            days == days_before_month(year as int, m as int),
            0 <= days <= 31 * (m - 1),
        decreases month - m,
    {
        days = days + if m == 2 {
            if leap {
                29
            } else {
                28
            }
        } else if m == 4 || m == 6 || m == 9 || m == 11 {
            30
        } else {
            31
        };
        m = m + 1;
    }
    proof {
        lemma_days_before_month_bound(year as int, month as int);
        lemma_days_before_month_bound(year as int, m as int);
    }
    days
}

/// Computes the seconds since the Unix epoch of a date and a time of day.
fn seconds_of_fields(date: (i64, i64, i64), time: (i64, i64, i64)) -> (r: i64)
    ensures
        r == fields_seconds(
            (date.0 as int, date.1 as int, date.2 as int),
            (time.0 as int, time.1 as int, time.2 as int),
        ),
{
    if date.0 > 9999 || date.1 > 13 {
        return 0;
    }
    let days: i128 = (count_days_before_year(date.0) as i128) + (count_days_before_month(
        date.0,
        date.1,
    ) as i128) + (date.2 as i128) - 1;
    let total: i128 = days * 86400 + (time.0 as i128) * 3600 + (time.1 as i128) * 60 + (
    time.2 as i128);
    if total < i64::MIN as i128 || total > i64::MAX as i128 {
        0
    } else {
        total as i64
    }
}

/// Returns the end of `t[start..end]` without the characters at its end that
/// are neither digits nor colons.
fn time_end(t: &[char], start: usize, end: usize) -> (r: usize)
    requires
        start <= end <= t@.len(),
    ensures
        start <= r <= end,
        t@.subrange(start as int, r as int) == trim_time_suffix(
            t@.subrange(start as int, end as int),
        ),
{
    let mut cut = end;
    while cut > start && !is_time_char(t[cut - 1])
        invariant
            start <= cut <= end <= t@.len(),
            trim_time_suffix(t@.subrange(start as int, end as int)) == trim_time_suffix(
                t@.subrange(start as int, cut as int),
            ),
        decreases cut,
    {
        proof {
            let w = t@.subrange(start as int, cut as int);
            assert(w.last() == t@[cut - 1]);
            assert(w.drop_last() =~= t@.subrange(start as int, cut - 1));
        }
        cut -= 1;
    }
    proof {
        let w = t@.subrange(start as int, cut as int);
        if cut > start {
            assert(w.last() == t@[cut - 1]);
        }
    }
    cut
}

/// Parses a timestamp such as `2024-01-15T12:34:56Z` into seconds since the
/// Unix epoch.
pub fn parse_iso8601(timestamp: &str) -> (r: i64)
    ensures
        r == iso8601_seconds(timestamp@),
{
    if timestamp.as_bytes().len() < 19 {
        return 0;
    }
    let t = chars_of(timestamp);
    let parts = split_spans(t.as_slice(), 'T');
    if parts.len() != 2 {
        return 0;
    }
    let date_span = parts[0];
    let time_span = parts[1];
    proof {
        assert(split_from(t@, 'T', 0)[0] == span_pieces(t@, parts@)[0]);
        assert(split_from(t@, 'T', 0)[1] == span_pieces(t@, parts@)[1]);
    }
    let date_text = vstd::slice::slice_subrange(t.as_slice(), date_span.start, date_span.end);
    let cut = time_end(t.as_slice(), time_span.start, time_span.end);
    let time_text = vstd::slice::slice_subrange(t.as_slice(), time_span.start, cut);
    match parse_three(date_text, '-') {
        Some(date) => match parse_three(time_text, ':') {
            Some(time) => seconds_of_fields(date, time),
            None => 0,
        },
        None => 0,
    }
}

fn is_time_char(c: char) -> (r: bool)
    ensures
        r == (is_digit(c) || c == ':'),
{
    let u = c as u32;
    (48 <= u && u <= 57) || c == ':'
}

/// One section of an INI file: its name and its entries, each a key with
/// its value, in the order in which the keys first appear.
#[derive(Debug)]
pub struct IniSection {
    pub name: String,
    pub entries: Vec<(String, String)>,
}

/// The mathematical value of an [`IniSection`].
pub ghost struct IniSectionView {
    pub name: Seq<char>,
    pub entries: Seq<(Seq<char>, Seq<char>)>,
}

impl View for IniSection {
    type V = IniSectionView;

    open spec fn view(&self) -> IniSectionView {
        IniSectionView { name: self.name@, entries: self.entries.deep_view() }
    }
}

impl DeepView for IniSection {
    type V = IniSectionView;

    open spec fn deep_view(&self) -> IniSectionView {
        self@
    }
}

/// The index of the first entry at or after `from` with the given key.
pub open spec fn key_index(entries: Seq<(Seq<char>, Seq<char>)>, key: Seq<char>, from: int)
    -> Option<int>
    decreases entries.len() - from,
{
    if from < 0 || from >= entries.len() {
        None
    } else if entries[from].0 == key {
        Some(from)
    } else {
        key_index(entries, key, from + 1)
    }
}

/// The index of the first section at or after `from` with the given name.
pub open spec fn section_index(sections: Seq<IniSectionView>, name: Seq<char>, from: int)
    -> Option<int>
    decreases sections.len() - from,
{
    if from < 0 || from >= sections.len() {
        None
    } else if sections[from].name == name {
        Some(from)
    } else {
        section_index(sections, name, from + 1)
    }
}

/// The value of a key among the entries of a section.
pub open spec fn entry_value(entries: Seq<(Seq<char>, Seq<char>)>, key: Seq<char>) -> Option<
    Seq<char>,
> {
    match key_index(entries, key, 0) {
        Some(i) => Some(entries[i].1),
        None => None,
    }
}

/// The value of a key in a section of a file.
pub open spec fn ini_value(sections: Seq<IniSectionView>, section: Seq<char>, key: Seq<char>)
    -> Option<Seq<char>> {
    match section_index(sections, section, 0) {
        Some(i) => entry_value(sections[i].entries, key),
        None => None,
    }
}

/// The entries with `value` as the value of `key`, in place of an earlier
/// value or as a new entry.
pub open spec fn with_entry(
    entries: Seq<(Seq<char>, Seq<char>)>,
    key: Seq<char>,
    value: Seq<char>,
) -> Seq<(Seq<char>, Seq<char>)> {
    match key_index(entries, key, 0) {
        Some(i) => entries.update(i, (key, value)),
        None => entries.push((key, value)),
    }
}

/// The sections with `value` as the value of `key` in the section `name`,
/// which is added where it is new.
pub open spec fn with_value(
    sections: Seq<IniSectionView>,
    name: Seq<char>,
    key: Seq<char>,
    value: Seq<char>,
) -> Seq<IniSectionView> {
    match section_index(sections, name, 0) {
        Some(i) => sections.update(
            i,
            IniSectionView { entries: with_entry(sections[i].entries, key, value), ..sections[i] },
        ),
        None => sections.push(IniSectionView { name, entries: seq![(key, value)] }),
    }
}

/// How far an INI file has been read: the sections so far, and the name of
/// the section that the next entries belong to.
pub ghost struct IniState {
    pub sections: Seq<IniSectionView>,
    pub current: Seq<char>,
}

/// The name that a section header gives: what stands between the brackets,
/// without a leading `profile ` and without white space around it.
pub open spec fn header_name(line: Seq<char>) -> Seq<char> {
    let inner = line.subrange(1, line.len() - 1);
    if occurs_at(inner, "profile "@, 0) {
        trimmed(inner.skip("profile "@.len() as int))
    } else {
        trimmed(inner)
    }
}

/// The state after one line. White space around the line does not count.
/// An empty line and a line that begins with `#` or `;` change nothing; a
/// line in brackets names the section that follows; a line with `=` gives a
/// key its value in the current section, where one has been named.
pub open spec fn ini_line(state: IniState, line: Seq<char>) -> IniState {
    let t = trimmed(line);
    if t.len() == 0 || t[0] == '#' || t[0] == ';' {
        state
    } else if t[0] == '[' && t.last() == ']' {
        IniState { current: header_name(t), ..state }
    } else {
        match find_char_from(t, '=', 0) {
            Some(eq) => if state.current.len() > 0 {
                IniState {
                    sections: with_value(
                        state.sections,
                        state.current,
                        trimmed(t.take(eq)),
                        trimmed(t.skip(eq + 1)),
                    ),
                    ..state
                }
            } else {
                state
            },
            None => state,
        }
    }
}

/// The state after the first `upto` lines.
pub open spec fn ini_lines(lines: Seq<Seq<char>>, upto: int) -> IniState
    decreases upto,
{
    if upto <= 0 {
        IniState { sections: Seq::empty(), current: Seq::empty() }
    } else {
        ini_line(ini_lines(lines, upto - 1), lines[upto - 1])
    }
}

/// The sections of an INI file with the given contents.
pub open spec fn ini_sections(contents: Seq<char>) -> Seq<IniSectionView> {
    let lines = split_from(contents, '\n', 0);
    ini_lines(lines, lines.len() as int).sections
}

/// Finds the first section with the given name.
pub fn find_section(sections: &Vec<IniSection>, name: &str) -> (r: Option<usize>)
    ensures
        match r {
            Some(i) => section_index(sections.deep_view(), name@, 0) == Some(i as int) && i
                < sections@.len(),
            None => section_index(sections.deep_view(), name@, 0) is None,
        },
{
    let mut i: usize = 0;
    while i < sections.len()
        invariant
            i <= sections@.len(),
            section_index(sections.deep_view(), name@, 0) == section_index(
                sections.deep_view(),
                name@,
                i as int,
            ),
        decreases sections@.len() - i,
    {
        proof {
            assert(sections.deep_view()[i as int] == sections@[i as int]@);
        }
        if str_equals(sections[i].name.as_str(), name) {
            return Some(i);
        }
        i += 1;
    }
    None
}

/// Finds the first entry with the given key.
fn find_key(entries: &Vec<(String, String)>, key: &str) -> (r: Option<usize>)
    ensures
        match r {
            Some(i) => key_index(entries.deep_view(), key@, 0) == Some(i as int) && i
                < entries@.len(),
            None => key_index(entries.deep_view(), key@, 0) is None,
        },
{
    let mut i: usize = 0;
    while i < entries.len()
        invariant
            i <= entries@.len(),
            key_index(entries.deep_view(), key@, 0) == key_index(
                entries.deep_view(),
                key@,
                i as int,
            ),
        decreases entries@.len() - i,
    {
        proof {
            assert(entries.deep_view()[i as int] == entries@[i as int].deep_view());
        }
        if str_equals(entries[i].0.as_str(), key) {
            return Some(i);
        }
        i += 1;
    }
    None
}

/// Returns the value of a key in a section.
pub fn section_value(section: &IniSection, key: &str) -> (r: Option<String>)
    ensures
        r.deep_view() == entry_value(section@.entries, key@),
{
    match find_key(&section.entries, key) {
        Some(i) => {
            proof {
                assert(section@.entries[i as int] == section.entries@[i as int].deep_view());
            }
            Some(section.entries[i].1.clone())
        },
        None => None,
    }
}

/// Returns the value of a key in a section of a file.
pub fn ini_get(sections: &Vec<IniSection>, section: &str, key: &str) -> (r: Option<String>)
    ensures
        r.deep_view() == ini_value(sections.deep_view(), section@, key@),
{
    match find_section(sections, section) {
        Some(i) => {
            proof {
                assert(sections.deep_view()[i as int] == sections@[i as int]@);
            }
            section_value(&sections[i], key)
        },
        None => None,
    }
}

/// Gives a key its value in a section, which is added where it is new.
fn set_value(sections: &mut Vec<IniSection>, name: &str, key: String, value: String)
    ensures
        final(sections).deep_view() == with_value(
            old(sections).deep_view(),
            name@,
            key@,
            value@,
        ),
{
    let ghost before = sections.deep_view();
    match find_section(sections, name) {
        Some(i) => {
            proof {
                assert(before[i as int] == sections@[i as int]@);
            }
            let ghost entries = sections@[i as int].entries.deep_view();
            match find_key(&sections[i].entries, key.as_str()) {
                Some(j) => {
                    sections[i].entries[j] = (key, value);
                    proof {
                        assert(sections@[i as int].entries.deep_view() =~= entries.update(
                            j as int,
                            (key@, value@),
                        ));
                    }
                },
                None => {
                    proof {
                        lemma_deep_view_push(
                            sections@[i as int].entries@,
                            sections@[i as int].entries@.push((key, value)),
                            (key, value),
                        );
                    }
                    sections[i].entries.push((key, value));
                },
            }
            proof {
                assert(sections.deep_view() =~= before.update(
                    i as int,
                    IniSectionView {
                        entries: with_entry(before[i as int].entries, key@, value@),
                        ..before[i as int]
                    },
                ));
            }
        },
        None => {
            let mut entries: Vec<(String, String)> = Vec::new();
            entries.push((key, value));
            let section = IniSection { name: text_of(name), entries };
            proof {
                assert(section@.entries =~= seq![(key@, value@)]);
                lemma_deep_view_push(sections@, sections@.push(section), section);
            }
            sections.push(section);
        },
    }
}

/// Builds a string from `s[start..end]` without the white space around it.
fn trimmed_text(s: &[char], start: usize, end: usize) -> (r: String)
    requires
        start <= end <= s@.len(),
    ensures
        r@ == trimmed(s@.subrange(start as int, end as int)),
{
    let piece = vstd::slice::slice_subrange(s, start, end);
    proof {
        assert(piece@.skip(0) == piece@);
    }
    let (a, b) = trim_bounds(piece, 0);
    string_of(piece, a, b)
}

/// Reads one line of an INI file. `current` is the name of the section that
/// entries belong to.
fn read_ini_line(sections: &mut Vec<IniSection>, current: &mut String, line: &[char])
    ensures
        (IniState { sections: final(sections).deep_view(), current: final(current)@ }) == ini_line(
            (IniState { sections: old(sections).deep_view(), current: old(current)@ }),
            line@,
        ),
{
    proof {
        assert(line@.skip(0) == line@);
    }
    let (a, b) = trim_bounds(line, 0);
    let t = vstd::slice::slice_subrange(line, a, b);
    let n = t.len();
    if n == 0 || t[0] == '#' || t[0] == ';' {
        return ;
    }
    if t[0] == '[' && t[n - 1] == ']' {
        let inner = vstd::slice::slice_subrange(t, 1, n - 1);
        let prefix = chars_of("profile ");
        let name = if starts_with_at(inner, 0, "profile ") {
            proof {
                assert(inner@.skip(prefix@.len() as int) == inner@.subrange(
                    prefix@.len() as int,
                    inner@.len() as int,
                ));
            }
            trimmed_text(inner, prefix.len(), n - 2)
        } else {
            proof {
                assert(inner@.subrange(0, inner@.len() as int) == inner@);
            }
            trimmed_text(inner, 0, n - 2)
        };
        *current = name;
        return ;
    }
    proof {
        lemma_find_char_from(t@, '=', 0);
    }
    match find_char(t, '=', 0) {
        Some(eq) => {
            if !current.as_str().is_empty() {
                proof {
                    assert(t@.take(eq as int) == t@.subrange(0, eq as int));
                    assert(t@.skip(eq + 1) == t@.subrange(eq + 1, n as int));
                }
                let key = trimmed_text(t, 0, eq);
                let value = trimmed_text(t, eq + 1, n);
                let section = current.clone();
                set_value(sections, section.as_str(), key, value);
            }
        },
        None => {},
    }
}

/// Parses the contents of an INI file into its sections.
pub fn parse_ini(contents: &str) -> (r: Vec<IniSection>)
    ensures
        r.deep_view() == ini_sections(contents@),
{
    let x = chars_of(contents);
    let spans = split_spans(x.as_slice(), '\n');
    let ghost lines = split_from(x@, '\n', 0);
    let mut sections: Vec<IniSection> = Vec::new();
    let mut current = String::new();
    let mut i: usize = 0;
    proof {
        assert(sections.deep_view() =~= Seq::<IniSectionView>::empty());
    }
    while i < spans.len()
        invariant
            i <= spans@.len(),
            span_pieces(x@, spans@) == lines,
            forall|k: int|
                0 <= k < spans@.len() ==> (#[trigger] spans@[k]).start <= spans@[k].end
                    <= x@.len(),
            (IniState { sections: sections.deep_view(), current: current@ }) == ini_lines(
                lines,
                i as int,
            ),
        decreases spans@.len() - i,
    {
        let span = spans[i];
        let line = vstd::slice::slice_subrange(x.as_slice(), span.start, span.end);
        proof {
            assert(lines[i as int] == span_pieces(x@, spans@)[i as int]);
        }
        read_ini_line(&mut sections, &mut current, line);
        i += 1;
    }
    sections
}

/// The value of a key among the entries, or `default` where it has none.
pub open spec fn value_or(
    entries: Seq<(Seq<char>, Seq<char>)>,
    key: Seq<char>,
    default: Seq<char>,
) -> Seq<char> {
    match entry_value(entries, key) {
        Some(v) => v,
        None => default,
    }
}

fn get_or(section: &IniSection, key: &str, default: &String) -> (r: String)
    ensures
        r@ == value_or(section@.entries, key@, default@),
{
    match section_value(section, key) {
        Some(v) => v,
        None => default.clone(),
    }
}

/// The profile with its SSO session resolved: where the profile names no
/// start URL itself, and its section of the configuration refers to an
/// `sso-session` section that exists, the session's name, start URL and
/// region are taken over.
pub open spec fn sso_resolved(p: AWSProfileView, config: Seq<IniSectionView>) -> AWSProfileView {
    if p.sso_start_url.len() > 0 {
        p
    } else {
        match ini_value(config, p.name, "sso_session"@) {
            None => p,
            Some(session) => match section_index(config, "sso-session "@ + session, 0) {
                None => p,
                Some(i) => AWSProfileView {
                    sso_session_name: session,
                    sso_start_url: value_or(config[i].entries, "sso_start_url"@, p.sso_start_url),
                    sso_region: value_or(config[i].entries, "sso_region"@, p.sso_region),
                    ..p
                },
            },
        }
    }
}

/// Resolves the SSO session of a profile.
pub fn resolve_sso_session(profile: &mut AWSProfile, config: &Vec<IniSection>)
    ensures
        final(profile)@ == sso_resolved(old(profile)@, config.deep_view()),
{
    if !profile.sso_start_url.as_str().is_empty() {
        return ;
    }
    let session = match ini_get(config, profile.name.as_str(), "sso_session") {
        Some(s) => s,
        None => {
            return ;
        },
    };
    let mut name = String::new();
    crate::text::push_text(&mut name, "sso-session ");
    crate::text::push_text(&mut name, session.as_str());
    proof {
        assert(name@ =~= "sso-session "@ + session@);
    }
    match find_section(config, name.as_str()) {
        Some(i) => {
            proof {
                assert(config.deep_view()[i as int] == config@[i as int]@);
            }
            profile.sso_start_url = get_or(&config[i], "sso_start_url", &profile.sso_start_url);
            profile.sso_region = get_or(&config[i], "sso_region", &profile.sso_region);
            profile.sso_session_name = session;
        },
        None => {},
    }
}

/// The profile with `us-east-1` as its region where it names none.
pub open spec fn with_default_region(p: AWSProfileView) -> AWSProfileView {
    if p.region.len() == 0 {
        AWSProfileView { region: "us-east-1"@, ..p }
    } else {
        p
    }
}

/// Whether the profile has an access key and a secret.
pub open spec fn has_keys(p: AWSProfileView) -> bool {
    p.access_key_id.len() > 0 && p.secret_access_key.len() > 0
}

/// Whether the profile names all it takes to sign on through SSO.
pub open spec fn has_sso(p: AWSProfileView) -> bool {
    p.sso_start_url.len() > 0 && p.sso_account_id.len() > 0 && p.sso_role_name.len() > 0
}

/// The profile that a section of the credentials file describes, with what
/// the section of the same name in the configuration adds.
pub open spec fn credentials_profile(section: IniSectionView, config: Seq<IniSectionView>)
    -> AWSProfileView {
    let empty = Seq::<char>::empty();
    let keyed = AWSProfileView {
        name: section.name,
        access_key_id: value_or(section.entries, "aws_access_key_id"@, empty),
        secret_access_key: value_or(section.entries, "aws_secret_access_key"@, empty),
        session_token: value_or(section.entries, "aws_session_token"@, empty),
        ..empty_profile()
    };
    with_default_region(
        match section_index(config, section.name, 0) {
            Some(i) => sso_resolved(
                AWSProfileView {
                    region: value_or(config[i].entries, "region"@, empty),
                    endpoint_url: value_or(config[i].entries, "endpoint_url"@, empty),
                    sso_start_url: value_or(config[i].entries, "sso_start_url"@, empty),
                    sso_region: value_or(config[i].entries, "sso_region"@, empty),
                    sso_account_id: value_or(config[i].entries, "sso_account_id"@, empty),
                    sso_role_name: value_or(config[i].entries, "sso_role_name"@, empty),
                    ..keyed
                },
                config,
            ),
            None => keyed,
        },
    )
}

/// The profile that a section of the configuration describes by itself.
pub open spec fn config_profile(section: IniSectionView, config: Seq<IniSectionView>)
    -> AWSProfileView {
    let empty = Seq::<char>::empty();
    let resolved = sso_resolved(
        AWSProfileView {
            name: section.name,
            sso_start_url: value_or(section.entries, "sso_start_url"@, empty),
            sso_region: value_or(section.entries, "sso_region"@, empty),
            ..empty_profile()
        },
        config,
    );
    with_default_region(
        AWSProfileView {
            sso_account_id: value_or(section.entries, "sso_account_id"@, empty),
            sso_role_name: value_or(section.entries, "sso_role_name"@, empty),
            region: value_or(section.entries, "region"@, empty),
            ..resolved
        },
    )
}

/// Whether one of the profiles has the given name.
pub open spec fn has_profile(profiles: Seq<AWSProfileView>, name: Seq<char>) -> bool {
    exists|i: int| 0 <= i < profiles.len() && (#[trigger] profiles[i]).name == name
}

/// The profiles of the first `upto` sections of the credentials file: one
/// for each section that has keys or names an SSO sign-on.
pub open spec fn profiles_from_credentials(
    creds: Seq<IniSectionView>,
    config: Seq<IniSectionView>,
    upto: int,
) -> Seq<AWSProfileView>
    decreases upto,
{
    if upto <= 0 {
        Seq::empty()
    } else {
        let before = profiles_from_credentials(creds, config, upto - 1);
        let p = credentials_profile(creds[upto - 1], config);
        if has_keys(p) || has_sso(p) {
            before.push(p)
        } else {
            before
        }
    }
}

/// The profiles with those that the first `upto` sections of the
/// configuration add: one for each section that is no SSO session, has no
/// profile yet, and names an SSO sign-on.
pub open spec fn profiles_with_config(
    profiles: Seq<AWSProfileView>,
    config: Seq<IniSectionView>,
    upto: int,
) -> Seq<AWSProfileView>
    decreases upto,
{
    if upto <= 0 {
        profiles
    } else {
        let before = profiles_with_config(profiles, config, upto - 1);
        let section = config[upto - 1];
        if occurs_at(section.name, "sso-session "@, 0) || has_profile(before, section.name) {
            before
        } else {
            let p = config_profile(section, config);
            if has_sso(p) {
                before.push(p)
            } else {
                before
            }
        }
    }
}

/// The profiles that a credentials file and a configuration file describe,
/// before any SSO sign-on.
pub open spec fn built_profiles(creds: Seq<IniSectionView>, config: Seq<IniSectionView>) -> Seq<
    AWSProfileView,
> {
    profiles_with_config(
        profiles_from_credentials(creds, config, creds.len() as int),
        config,
        config.len() as int,
    )
}

fn default_region(profile: &mut AWSProfile)
    ensures
        final(profile)@ == with_default_region(old(profile)@),
{
    if profile.region.as_str().is_empty() {
        profile.region = text_of("us-east-1");
    }
}

fn profile_has_keys(profile: &AWSProfile) -> (r: bool)
    ensures
        r == has_keys(profile@),
{
    !profile.access_key_id.as_str().is_empty() && !profile.secret_access_key.as_str().is_empty()
}

fn profile_has_sso(profile: &AWSProfile) -> (r: bool)
    ensures
        r == has_sso(profile@),
{
    !profile.sso_start_url.as_str().is_empty() && !profile.sso_account_id.as_str().is_empty()
        && !profile.sso_role_name.as_str().is_empty()
}

/// Whether the profile's keys have to be fetched through SSO: it names a
/// start URL and has no access key.
pub open spec fn needs_sso(p: AWSProfileView) -> bool {
    p.sso_start_url.len() > 0 && p.access_key_id.len() == 0
}

/// Whether the profile's keys have to be fetched through SSO.
pub fn needs_sso_credentials(profile: &AWSProfile) -> (r: bool)
    ensures
        r == needs_sso(profile@),
{
    !profile.sso_start_url.as_str().is_empty() && profile.access_key_id.as_str().is_empty()
}

fn build_credentials_profile(section: &IniSection, config: &Vec<IniSection>) -> (r: AWSProfile)
    ensures
        r@ == credentials_profile(section@, config.deep_view()),
{
    let empty = String::new();
    let mut profile = AWSProfile::default();
    profile.name = section.name.clone();
    profile.access_key_id = get_or(section, "aws_access_key_id", &empty);
    profile.secret_access_key = get_or(section, "aws_secret_access_key", &empty);
    profile.session_token = get_or(section, "aws_session_token", &empty);
    match find_section(config, section.name.as_str()) {
        Some(i) => {
            proof {
                assert(config.deep_view()[i as int] == config@[i as int]@);
            }
            profile.region = get_or(&config[i], "region", &empty);
            profile.endpoint_url = get_or(&config[i], "endpoint_url", &empty);
            profile.sso_start_url = get_or(&config[i], "sso_start_url", &empty);
            profile.sso_region = get_or(&config[i], "sso_region", &empty);
            profile.sso_account_id = get_or(&config[i], "sso_account_id", &empty);
            profile.sso_role_name = get_or(&config[i], "sso_role_name", &empty);
            resolve_sso_session(&mut profile, config);
        },
        None => {},
    }
    default_region(&mut profile);
    profile
}

fn build_config_profile(section: &IniSection, config: &Vec<IniSection>) -> (r: AWSProfile)
    ensures
        r@ == config_profile(section@, config.deep_view()),
{
    let empty = String::new();
    let mut profile = AWSProfile::default();
    profile.name = section.name.clone();
    profile.sso_start_url = get_or(section, "sso_start_url", &empty);
    profile.sso_region = get_or(section, "sso_region", &empty);
    resolve_sso_session(&mut profile, config);
    profile.sso_account_id = get_or(section, "sso_account_id", &empty);
    profile.sso_role_name = get_or(section, "sso_role_name", &empty);
    profile.region = get_or(section, "region", &empty);
    default_region(&mut profile);
    profile
}

fn names_profile(profiles: &Vec<AWSProfile>, name: &str) -> (r: bool)
    ensures
        r == has_profile(profiles.deep_view(), name@),
{
    let mut i: usize = 0;
    while i < profiles.len()
        invariant
            i <= profiles@.len(),
            forall|j: int| 0 <= j < i ==> profiles@[j]@.name != name@,
        decreases profiles@.len() - i,
    {
        if str_equals(profiles[i].name.as_str(), name) {
            proof {
                assert(profiles.deep_view()[i as int].name == name@);
            }
            return true;
        }
        i += 1;
    }
    proof {
        assert forall|j: int| 0 <= j < profiles.deep_view().len() implies (
        #[trigger] profiles.deep_view()[j]).name != name@ by {
            assert(profiles.deep_view()[j] == profiles@[j]@);
        }
    }
    false
}

/// Builds the profiles that the sections of a credentials file and of a
/// configuration file describe. Keys that have to be fetched through SSO are
/// still missing in them.
pub fn build_profiles(creds: &Vec<IniSection>, config: &Vec<IniSection>) -> (r: Vec<AWSProfile>)
    ensures
        r.deep_view() == built_profiles(creds.deep_view(), config.deep_view()),
{
    let mut profiles: Vec<AWSProfile> = Vec::new();
    let mut i: usize = 0;
    proof {
        assert(profiles.deep_view() =~= Seq::<AWSProfileView>::empty());
    }
    while i < creds.len()
        invariant
            i <= creds@.len(),
            profiles.deep_view() == profiles_from_credentials(
                creds.deep_view(),
                config.deep_view(),
                i as int,
            ),
        decreases creds@.len() - i,
    {
        proof {
            assert(creds.deep_view()[i as int] == creds@[i as int]@);
        }
        let profile = build_credentials_profile(&creds[i], config);
        if profile_has_keys(&profile) || profile_has_sso(&profile) {
            proof {
                lemma_deep_view_push(profiles@, profiles@.push(profile), profile);
            }
            profiles.push(profile);
        }
        i += 1;
    }
    let ghost keyed = profiles.deep_view();
    let mut j: usize = 0;
    while j < config.len()
        invariant
            j <= config@.len(),
            profiles.deep_view() == profiles_with_config(keyed, config.deep_view(), j as int),
        decreases config@.len() - j,
    {
        proof {
            assert(config.deep_view()[j as int] == config@[j as int]@);
        }
        let name = chars_of(config[j].name.as_str());
        if !starts_with_at(name.as_slice(), 0, "sso-session ") && !names_profile(
            &profiles,
            config[j].name.as_str(),
        ) {
            let profile = build_config_profile(&config[j], config);
            if profile_has_sso(&profile) {
                proof {
                    lemma_deep_view_push(profiles@, profiles@.push(profile), profile);
                }
                profiles.push(profile);
            }
        }
        j += 1;
    }
    profiles
}

/// The profiles among the first `upto` that have an access key and a
/// secret, in order.
pub open spec fn profiles_with_keys(profiles: Seq<AWSProfileView>, upto: int) -> Seq<
    AWSProfileView,
>
    decreases upto,
{
    if upto <= 0 {
        Seq::empty()
    } else if has_keys(profiles[upto - 1]) {
        profiles_with_keys(profiles, upto - 1).push(profiles[upto - 1])
    } else {
        profiles_with_keys(profiles, upto - 1)
    }
}

/// Keeps the profiles that have an access key and a secret.
pub fn retain_with_keys(profiles: Vec<AWSProfile>) -> (r: Vec<AWSProfile>)
    ensures
        r.deep_view() == profiles_with_keys(profiles.deep_view(), profiles@.len() as int),
{
    let mut kept: Vec<AWSProfile> = Vec::new();
    let mut i: usize = 0;
    proof {
        assert(kept.deep_view() =~= Seq::<AWSProfileView>::empty());
    }
    while i < profiles.len()
        invariant
            i <= profiles@.len(),
            kept.deep_view() == profiles_with_keys(profiles.deep_view(), i as int),
        decreases profiles@.len() - i,
    {
        proof {
            assert(profiles.deep_view()[i as int] == profiles@[i as int]@);
        }
        if profile_has_keys(&profiles[i]) {
            let profile = profiles[i].clone();
            proof {
                lemma_deep_view_push(kept@, kept@.push(profile), profile);
            }
            kept.push(profile);
        }
        i += 1;
    }
    kept
}

/// The profile as the files describe it now: its keys from its section of
/// the credentials file, and what its section of the configuration says,
/// where the files have such sections.
pub open spec fn refreshed_profile(
    p: AWSProfileView,
    creds: Seq<IniSectionView>,
    config: Seq<IniSectionView>,
) -> AWSProfileView {
    let empty = Seq::<char>::empty();
    let keyed = match section_index(creds, p.name, 0) {
        Some(i) => AWSProfileView {
            access_key_id: value_or(creds[i].entries, "aws_access_key_id"@, empty),
            secret_access_key: value_or(creds[i].entries, "aws_secret_access_key"@, empty),
            session_token: value_or(creds[i].entries, "aws_session_token"@, empty),
            ..p
        },
        None => p,
    };
    with_default_region(
        match section_index(config, p.name, 0) {
            Some(i) => sso_resolved(
                AWSProfileView {
                    region: value_or(config[i].entries, "region"@, keyed.region),
                    endpoint_url: value_or(config[i].entries, "endpoint_url"@, empty),
                    sso_start_url: value_or(config[i].entries, "sso_start_url"@, empty),
                    sso_region: value_or(config[i].entries, "sso_region"@, empty),
                    sso_account_id: value_or(config[i].entries, "sso_account_id"@, empty),
                    sso_role_name: value_or(config[i].entries, "sso_role_name"@, empty),
                    sso_session_name: empty,
                    ..keyed
                },
                config,
            ),
            None => keyed,
        },
    )
}

/// Refreshes a profile from the sections of the credentials file and of the
/// configuration file. Returns whether the profile has keys afterwards, or
/// has to fetch them through SSO.
pub fn refresh_profile(profile: &mut AWSProfile, creds: &Vec<IniSection>, config: &Vec<IniSection>)
    -> (usable: bool)
    ensures
        final(profile)@ == refreshed_profile(old(profile)@, creds.deep_view(), config.deep_view()),
        usable == (has_keys(final(profile)@) || needs_sso(final(profile)@)),
{
    let empty = String::new();
    match find_section(creds, profile.name.as_str()) {
        Some(i) => {
            proof {
                assert(creds.deep_view()[i as int] == creds@[i as int]@);
            }
            profile.access_key_id = get_or(&creds[i], "aws_access_key_id", &empty);
            profile.secret_access_key = get_or(&creds[i], "aws_secret_access_key", &empty);
            profile.session_token = get_or(&creds[i], "aws_session_token", &empty);
        },
        None => {},
    }
    match find_section(config, profile.name.as_str()) {
        Some(i) => {
            proof {
                assert(config.deep_view()[i as int] == config@[i as int]@);
            }
            profile.region = get_or(&config[i], "region", &profile.region);
            profile.endpoint_url = get_or(&config[i], "endpoint_url", &empty);
            profile.sso_start_url = get_or(&config[i], "sso_start_url", &empty);
            profile.sso_region = get_or(&config[i], "sso_region", &empty);
            profile.sso_account_id = get_or(&config[i], "sso_account_id", &empty);
            profile.sso_role_name = get_or(&config[i], "sso_role_name", &empty);
            profile.sso_session_name = String::new();
            resolve_sso_session(profile, config);
        },
        None => {},
    }
    default_region(profile);
    profile_has_keys(profile) || needs_sso_credentials(profile)
}

/// The SHA-1 digest of `data`, as `ring::digest::digest` computes it.
pub uninterp spec fn sha1_digest(data: Seq<u8>) -> Seq<u8>;

/// Calls `ring::digest::digest` with SHA-1. The digest is named. Inputs at
/// or above the limit are left out: on those the call fails.
#[verifier::external_body]
fn sha1_raw(data: &[u8]) -> (r: Vec<u8>)
    requires
        data@.len() < HASH_INPUT_LIMIT,
    ensures
        r@ == sha1_digest(data@),
{
    ring::digest::digest(&ring::digest::SHA1_FOR_LEGACY_USE_ONLY, data).as_ref().to_vec()
}

/// The name under which the token of an SSO sign-on is cached: the SHA-1
/// digest, in hexadecimal, of the session name, or of the start URL where
/// there is no session name. None for a text too long to hash.
pub open spec fn sso_cache_name(start_url: Seq<char>, session_name: Seq<char>) -> Option<
    Seq<char>,
> {
    let input = if session_name.len() == 0 {
        start_url
    } else {
        session_name
    };
    if hashable(encode_utf8(input)) {
        Some(hex(sha1_digest(encode_utf8(input))))
    } else {
        None
    }
}

/// Computes the name under which the token of an SSO sign-on is cached.
pub fn sso_cache_key(sso_start_url: &str, sso_session_name: &str) -> (r: Option<String>)
    ensures
        r.deep_view() == sso_cache_name(sso_start_url@, sso_session_name@),
{
    let input = if sso_session_name.is_empty() {
        sso_start_url
    } else {
        sso_session_name
    };
    let bytes = input.as_bytes();
    if (bytes.len() as u64) < HASH_INPUT_LIMIT {
        Some(to_hex(sha1_raw(bytes).as_slice()))
    } else {
        None
    }
}

/// Whether a token that expires at `expiration` has expired at `now`; a
/// token without a known expiration (zero or less) never has.
pub fn token_expired(expiration: i64, now: i64) -> (r: bool)
    ensures
        r == (expiration > 0 && now >= expiration),
{
    expiration > 0 && now >= expiration
}

} // verus!
