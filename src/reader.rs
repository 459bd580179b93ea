//! Building the desired set from configuration lines.
//!
//! Each meaningful line names one package or group, bare (`name`, managed by
//! pacman) or qualified by its provider (`local/name`). Lines that start
//! with `#` and lines of whitespace alone are skipped.

use vstd::prelude::*;
use crate::text::{occurrences, positions_of, Occurrences};
use crate::packages::{DesiredModel, PackageManager, PackageOrGroup, PackageOrGroupSet};

verus! {

/// A configuration line that cannot be read.
#[derive(Debug, Clone, PartialEq, Eq)]
pub enum ConfigReaderError {
    /// The line holds more than one `/`; it carries the whole line.
    TooManyQualifiers(String),
    /// The provider before the `/` is not known; it carries that token.
    UnknownProvider(String),
}

/// What a `ConfigReaderError` carries, as character sequences.
pub enum ConfigReaderErrorView {
    TooManyQualifiers(Seq<char>),
    UnknownProvider(Seq<char>),
}

impl View for ConfigReaderError {
    type V = ConfigReaderErrorView;

    open spec fn view(&self) -> ConfigReaderErrorView {
        match self {
            ConfigReaderError::TooManyQualifiers(l) => ConfigReaderErrorView::TooManyQualifiers(l@),
            ConfigReaderError::UnknownProvider(t) => ConfigReaderErrorView::UnknownProvider(t@),
        }
    }
}

/// The characters that Unicode gives the White_Space property.
pub open spec fn is_white_space(c: char) -> bool {
    ('\u{9}' <= c && c <= '\u{d}') || c == ' ' || c == '\u{85}' || c == '\u{a0}' || c
        == '\u{1680}' || ('\u{2000}' <= c && c <= '\u{200a}') || c == '\u{2028}' || c
        == '\u{2029}' || c == '\u{202f}' || c == '\u{205f}' || c == '\u{3000}'
}

/// Relies on `char::is_whitespace`: true exactly for the characters with the
/// Unicode White_Space property.
#[verifier::external_body]
fn char_is_whitespace(c: char) -> (r: bool)
    ensures
        r == is_white_space(c),
{
    c.is_whitespace()
}

/// A comment, or a line of whitespace alone.
pub open spec fn is_skipped(line: Seq<char>) -> bool {
    (line.len() > 0 && line[0] == '#') || (forall|i: int|
        0 <= i < line.len() ==> is_white_space(#[trigger] line[i]))
}

/// The provider written as this token, if any.
pub open spec fn provider_of(token: Seq<char>) -> Option<PackageManager> {
    if token == "local"@ {
        Some(PackageManager::LOCAL)
    } else if token == "pacman"@ {
        Some(PackageManager::PACMAN)
    } else {
        None
    }
}

/// The positions of `/` in a line.
pub open spec fn slashes(s: Seq<char>) -> Set<int> {
    positions_of(s, '/')
}

/// The entry that a meaningful line names, or why it names none: a bare
/// name is managed by pacman; `provider/name` is managed by that provider.
pub open spec fn parse_entry(s: Seq<char>) -> Result<(Seq<char>, PackageManager), ConfigReaderErrorView> {
    if slashes(s).is_empty() {
        Ok((s, PackageManager::PACMAN))
    } else if exists|k: int| slashes(s) == set![k] {
        let k = choose|k: int| slashes(s) == set![k];
        match provider_of(s.take(k)) {
            Some(m) => Ok((s.skip(k + 1), m)),
            None => Err(ConfigReaderErrorView::UnknownProvider(s.take(k))),
        }
    } else {
        Err(ConfigReaderErrorView::TooManyQualifiers(s))
    }
}

/// Reads the provider written before a `/`.
pub fn parse_package_manager(raw: &str) -> (r: Result<PackageManager, ConfigReaderError>)
    ensures
        match provider_of(raw@) {
            Some(m) => r == Ok::<PackageManager, ConfigReaderError>(m),
            None => r matches Err(e) && e@ == ConfigReaderErrorView::UnknownProvider(raw@),
        },
{
    let local = String::from_str("local");
    let pacman = String::from_str("pacman");
    let token = String::from_str(raw);
    proof {
        reveal_strlit("local");
        reveal_strlit("pacman");
    }
    if token == local {
        Ok(PackageManager::LOCAL)
    } else if token == pacman {
        Ok(PackageManager::PACMAN)
    } else {
        Err(ConfigReaderError::UnknownProvider(token))
    }
}

/// Reads one meaningful line: a bare name, or `provider/name`.
pub fn parse_package_or_group(line: &str) -> (r: Result<PackageOrGroup, ConfigReaderError>)
    ensures
        match parse_entry(line@) {
            Ok(x) => r matches Ok(p) && p@ == x,
            Err(e) => r matches Err(f) && f@ == e,
        },
{
    match occurrences(line, '/') {
        Occurrences::Never => Ok(PackageOrGroup::new(String::from_str(line), PackageManager::PACMAN)),
        Occurrences::Several => Err(ConfigReaderError::TooManyQualifiers(String::from_str(line))),
        Occurrences::Once(k) => {
            let n = line.unicode_len();
            proof {
                let j = choose|j: int| slashes(line@) == set![j];
                assert(set![j].contains(k as int));
                assert(set![k as int].contains(k as int));
                assert(slashes(line@).contains(k as int));
            }
            let token = line.substring_char(0, k);
            let name = line.substring_char(k + 1, n);
            assert(token@ =~= line@.take(k as int));
            assert(name@ =~= line@.skip(k + 1));
            match parse_package_manager(token) {
                Ok(m) => Ok(PackageOrGroup::new(String::from_str(name), m)),
                Err(e) => Err(e),
            }
        },
    }
}

/// The entries that a file's lines name, or the error of its first line
/// that cannot be read.
pub open spec fn parse_lines(lines: Seq<Seq<char>>) -> Result<DesiredModel, ConfigReaderErrorView>
    decreases lines.len(),
{
    if lines.len() == 0 {
        Ok(Set::empty())
    } else {
        match parse_lines(lines.drop_last()) {
            Err(e) => Err(e),
            Ok(t) => if is_skipped(lines.last()) {
                Ok(t)
            } else {
                match parse_entry(lines.last()) {
                    Ok(x) => Ok(t.insert(x)),
                    Err(e) => Err(e),
                }
            },
        }
    }
}

/// The entries that all files name, or the error of the first line, in
/// file order, that cannot be read.
pub open spec fn parse_files(files: Seq<Seq<Seq<char>>>) -> Result<DesiredModel, ConfigReaderErrorView>
    decreases files.len(),
{
    if files.len() == 0 {
        Ok(Set::empty())
    } else {
        match parse_files(files.drop_last()) {
            Err(e) => Err(e),
            Ok(t) => match parse_lines(files.last()) {
                Ok(u) => Ok(t.union(u)),
                Err(e) => Err(e),
            },
        }
    }
}

proof fn lemma_lines_error_stays(s: Seq<Seq<char>>, k: int)
    requires
        0 <= k <= s.len(),
        parse_lines(s.take(k)) is Err,
    ensures
        parse_lines(s) == parse_lines(s.take(k)),
    decreases s.len(),
{
    if k < s.len() {
        assert(s.drop_last().take(k) =~= s.take(k));
        lemma_lines_error_stays(s.drop_last(), k);
    } else {
        assert(s.take(k) =~= s);
    }
}

proof fn lemma_files_error_stays(s: Seq<Seq<Seq<char>>>, k: int)
    requires
        0 <= k <= s.len(),
        parse_files(s.take(k)) is Err,
    ensures
        parse_files(s) == parse_files(s.take(k)),
    decreases s.len(),
{
    if k < s.len() {
        assert(s.drop_last().take(k) =~= s.take(k));
        lemma_files_error_stays(s.drop_last(), k);
    } else {
        assert(s.take(k) =~= s);
    }
}

fn line_is_skipped(line: &str) -> (r: bool)
    ensures
        r == is_skipped(line@),
{
    let n = line.unicode_len();
    if n > 0 && line.get_char(0) == '#' {
        return true;
    }
    let mut i: usize = 0;
    while i < n
        invariant
            n == line@.len(),
            i <= n,
            n > 0 ==> line@[0] != '#',
            forall|j: int| 0 <= j < i ==> is_white_space(#[trigger] line@[j]),
        decreases n - i,
    {
        if !char_is_whitespace(line.get_char(i)) {
            assert(!is_white_space(line@[i as int]));
            return false;
        }
        i = i + 1;
    }
    true
}

/// Adds the entries that a file's lines name; stops at the first line that
/// cannot be read.
pub fn insert_packages(lines: &Vec<String>, reference: &mut PackageOrGroupSet) -> (r: Result<
    (),
    ConfigReaderError,
>)
    requires
        old(reference).wf(),
    ensures
        final(reference).wf(),
        match parse_lines(lines.deep_view()) {
            Ok(t) => r is Ok && final(reference)@ == old(reference)@.union(t),
            Err(e) => r matches Err(f) && f@ == e,
        },
{
    let ghost dv = lines.deep_view();
    let mut i: usize = 0;
    while i < lines.len()
        invariant
            dv == lines.deep_view(),
            i <= dv.len(),
            reference.wf(),
            parse_lines(dv.take(i as int)) matches Ok(t) && reference@ == old(reference)@.union(t),
        decreases dv.len() - i,
    {
        let line = lines[i].as_str();
        proof {
            assert(dv.take(i + 1).drop_last() =~= dv.take(i as int));
            assert(dv.take(i + 1).last() == line@);
        }
        if !line_is_skipped(line) {
            match parse_package_or_group(line) {
                Ok(p) => {
                    reference.insert(p);
                    assert(reference@ =~= old(reference)@.union(
                        parse_lines(dv.take(i + 1))->Ok_0,
                    ));
                },
                Err(e) => {
                    proof {
                        lemma_lines_error_stays(dv, i + 1);
                    }
                    return Err(e);
                },
            }
        }
        i = i + 1;
    }
    assert(dv.take(i as int) =~= dv);
    Ok(())
}

/// Builds the desired set from the lines of each configuration file.
pub fn read(files: &Vec<Vec<String>>) -> (r: Result<PackageOrGroupSet, ConfigReaderError>)
    ensures
        match parse_files(files.deep_view()) {
            Ok(t) => r matches Ok(set) && set.wf() && set@ == t,
            Err(e) => r matches Err(f) && f@ == e,
        },
{
    let ghost dv = files.deep_view();
    let mut reference = PackageOrGroupSet::new();
    let mut i: usize = 0;
    while i < files.len()
        invariant
            dv == files.deep_view(),
            i <= dv.len(),
            reference.wf(),
            parse_files(dv.take(i as int)) matches Ok(t) && reference@ == t,
        decreases dv.len() - i,
    {
        proof {
            assert(dv.take(i + 1).drop_last() =~= dv.take(i as int));
            assert(dv.take(i + 1).last() == files@[i as int].deep_view());
        }
        match insert_packages(&files[i], &mut reference) {
            Ok(()) => {},
            Err(e) => {
                proof {
                    lemma_files_error_stays(dv, i + 1);
                }
                return Err(e);
            },
        }
        i = i + 1;
    }
    assert(dv.take(i as int) =~= dv);
    Ok(reference)
}

} // verus!
