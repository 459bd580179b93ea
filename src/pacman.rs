//! What the library makes of pacman: reading its listings of explicitly
//! installed groups and packages, and the arguments of the commands that
//! install and remove.

use vstd::prelude::*;
use vstd::utf8::{decode_utf8, valid_utf8};
use crate::compute_actions::Actions;
use crate::packages::{
    installed_insert, InstalledModel, Package, PackageManager, PackageSet,
};
use crate::text::{occurrences, positions_of, split, split_on, Occurrences};

verus! {

#[verifier::external_type_specification]
#[verifier::external_body]
pub struct ExUtf8Error(std::str::Utf8Error);

/// Why pacman's output could not be read.
#[derive(Debug)]
pub enum PacmanError {
    /// Some group rows are not of the form `group name`.
    ParseGroupError(String),
    /// The output is not UTF-8.
    Utf8(std::str::Utf8Error),
}

/// Relies on `std::str::from_utf8`: it succeeds exactly on well-formed
/// UTF-8, and then gives the characters that the bytes encode.
#[verifier::external_body]
fn decode_text(bytes: &[u8]) -> (r: Result<String, std::str::Utf8Error>)
    ensures
        r is Ok <==> valid_utf8(bytes@),
        r matches Ok(s) ==> s@ == decode_utf8(bytes@),
{
    match std::str::from_utf8(bytes) {
        Ok(s) => Ok(s.to_string()),
        Err(e) => Err(e),
    }
}

/// A row of the group listing, `group name`, read as the name and its group.
pub open spec fn group_row(row: Seq<char>) -> Option<(Seq<char>, Seq<char>)> {
    if exists|k: int| positions_of(row, ' ') == set![k] {
        let k = choose|k: int| positions_of(row, ' ') == set![k];
        Some((row.skip(k + 1), row.take(k)))
    } else {
        None
    }
}

/// The installed packages that the non-empty rows of a group listing name,
/// each with its group; the first row of a name is the one kept.
pub open spec fn groups_model(rows: Seq<Seq<char>>) -> InstalledModel
    decreases rows.len(),
{
    if rows.len() == 0 {
        Map::empty()
    } else {
        let m = groups_model(rows.drop_last());
        match group_row(rows.last()) {
            Some((name, group)) if rows.last().len() > 0 => installed_insert(m, name, Some(group)),
            _ => m,
        }
    }
}

/// One line of report for each non-empty row that is not of the form
/// `group name`.
pub open spec fn group_errors(rows: Seq<Seq<char>>) -> Seq<char>
    decreases rows.len(),
{
    if rows.len() == 0 {
        Seq::empty()
    } else if rows.last().len() > 0 && group_row(rows.last()) is None {
        group_errors(rows.drop_last()) + " - "@ + "parsing group error: "@ + rows.last() + "\n"@
    } else {
        group_errors(rows.drop_last())
    }
}

/// What reading a group listing gives: the packages it names, or, when some
/// rows are malformed, an error that reports each of them.
pub open spec fn group_listing_read(text: Seq<char>, r: Result<PackageSet, PacmanError>) -> bool {
    let rows = split_on(text, '\n');
    if group_errors(rows).len() == 0 {
        r matches Ok(set) && set.wf() && set@ == groups_model(rows)
    } else {
        r matches Err(PacmanError::ParseGroupError(m)) && m@ == "cannot read pacman output because:\n - "@
            + group_errors(rows)
    }
}

/// The installed packages that the non-empty rows of a package listing
/// name, none with a group.
pub open spec fn packages_model(rows: Seq<Seq<char>>) -> InstalledModel
    decreases rows.len(),
{
    if rows.len() == 0 {
        Map::empty()
    } else if rows.last().len() > 0 {
        installed_insert(packages_model(rows.drop_last()), rows.last(), None)
    } else {
        packages_model(rows.drop_last())
    }
}

/// Reads one row of the group listing, `group name`.
pub fn parse_group(row: &str) -> (r: Result<Package, PacmanError>)
    ensures
        match group_row(row@) {
            Some((name, group)) => r matches Ok(p) && p@ == (name, Some(group)),
            None => r matches Err(PacmanError::ParseGroupError(m)) && m@ == row@,
        },
{
    match occurrences(row, ' ') {
        Occurrences::Once(k) => {
            let n = row.unicode_len();
            proof {
                let j = choose|j: int| positions_of(row@, ' ') == set![j];
                assert(set![j].contains(k as int));
                assert(set![k as int].contains(k as int));
                assert(positions_of(row@, ' ').contains(k as int));
            }
            let group = row.substring_char(0, k);
            let name = row.substring_char(k + 1, n);
            assert(group@ =~= row@.take(k as int));
            assert(name@ =~= row@.skip(k + 1));
            Ok(Package::new(String::from_str(name), Some(String::from_str(group))))
        },
        _ => {
            proof {
                if exists|j: int| positions_of(row@, ' ') == set![j] {
                    let j = choose|j: int| positions_of(row@, ' ') == set![j];
                    assert(set![j].contains(j));
                    assert(!positions_of(row@, ' ').is_empty());
                }
            }
            Err(PacmanError::ParseGroupError(String::from_str(row)))
        },
    }
}

/// Reads the group listing, already decoded: one `group name` row per
/// package, empty rows skipped.
pub fn parse_group_rows(text: &str) -> (r: Result<PackageSet, PacmanError>)
    ensures
        group_listing_read(text@, r),
{
    let rows = split(text, '\n');
    let ghost dv = rows.deep_view();
    let mut groups = PackageSet::new();
    let mut errors = String::new();
    let mut i: usize = 0;
    while i < rows.len()
        invariant
            dv == rows.deep_view(),
            i <= dv.len(),
            groups.wf(),
            groups@ == groups_model(dv.take(i as int)),
            errors@ == group_errors(dv.take(i as int)),
        decreases dv.len() - i,
    {
        let row = rows[i].as_str();
        proof {
            assert(dv.take(i + 1).drop_last() =~= dv.take(i as int));
            assert(dv.take(i + 1).last() == row@);
        }
        if row.unicode_len() > 0 {
            match parse_group(row) {
                Ok(p) => {
                    groups.insert(p);
                },
                Err(_) => {
                    errors.append(" - ");
                    errors.append("parsing group error: ");
                    errors.append(row);
                    errors.append("\n");
                },
            }
        }
        i = i + 1;
    }
    assert(dv.take(i as int) =~= dv);
    if errors.unicode_len() == 0 {
        Ok(groups)
    } else {
        let mut message = String::from_str("cannot read pacman output because:\n - ");
        message.append(errors.as_str());
        Err(PacmanError::ParseGroupError(message))
    }
}

/// Reads the package listing, already decoded: one name per row, empty rows
/// skipped.
pub fn parse_package_rows(text: &str) -> (r: PackageSet)
    ensures
        r.wf(),
        r@ == packages_model(split_on(text@, '\n')),
{
    let rows = split(text, '\n');
    let ghost dv = rows.deep_view();
    let mut packages = PackageSet::new();
    let mut i: usize = 0;
    while i < rows.len()
        invariant
            dv == rows.deep_view(),
            i <= dv.len(),
            packages.wf(),
            packages@ == packages_model(dv.take(i as int)),
        decreases dv.len() - i,
    {
        let row = rows[i].as_str();
        proof {
            assert(dv.take(i + 1).drop_last() =~= dv.take(i as int));
            assert(dv.take(i + 1).last() == row@);
        }
        if row.unicode_len() > 0 {
            packages.insert(Package::new(String::from_str(row), None));
        }
        i = i + 1;
    }
    assert(dv.take(i as int) =~= dv);
    packages
}

/// Reads pacman's listing of explicitly installed packages by group.
pub fn parse_pacman_groups(output: Vec<u8>) -> (r: Result<PackageSet, PacmanError>)
    ensures
        !valid_utf8(output@) ==> r matches Err(PacmanError::Utf8(_)),
        valid_utf8(output@) ==> group_listing_read(decode_utf8(output@), r),
{
    match decode_text(output.as_slice()) {
        Ok(text) => parse_group_rows(text.as_str()),
        Err(e) => Err(PacmanError::Utf8(e)),
    }
}

/// Reads pacman's listing of explicitly installed packages.
pub fn parse_pacman_packages(output: Vec<u8>) -> (r: Result<PackageSet, PacmanError>)
    ensures
        !valid_utf8(output@) ==> r matches Err(PacmanError::Utf8(_)),
        valid_utf8(output@) ==> (r matches Ok(set) && set.wf() && set@ == packages_model(
            split_on(decode_utf8(output@), '\n'),
        )),
{
    match decode_text(output.as_slice()) {
        Ok(text) => Ok(parse_package_rows(text.as_str())),
        Err(e) => Err(PacmanError::Utf8(e)),
    }
}

/// Puts the packages of both listings together; a package that both list
/// keeps the group that the group listing gives it.
pub fn merge_packages(groups: PackageSet, packages: PackageSet) -> (r: PackageSet)
    requires
        groups.wf(),
        packages.wf(),
    ensures
        r.wf(),
        r@ == packages@.union_prefer_right(groups@),
{
    let mut result = PackageSet::new();
    let mut i: usize = 0;
    while i < groups.len()
        invariant
            groups.wf(),
            i <= groups.entries().len(),
            result.wf(),
            forall|n: Seq<char>|
                #![trigger result@.contains_key(n)]
                result@.contains_key(n) <==> exists|j: int|
                    0 <= j < i && groups.entries()[j].0 == n,
            forall|j: int|
                0 <= j < i ==> result@[#[trigger] groups.entries()[j].0] == groups.entries()[j].1,
        decreases groups.entries().len() - i,
    {
        let ghost e = groups.entries()[i as int];
        let name = groups.get(i).name.clone();
        let group = match &groups.get(i).group {
            Some(g) => Some(g.clone()),
            None => None,
        };
        assert(!result@.contains_key(e.0));
        result.insert(Package::new(name, group));
        i = i + 1;
    }
    proof {
        assert forall|n: Seq<char>| #[trigger] groups@.contains_key(n) implies result@.contains_key(n)
            && result@[n] == groups@[n] by {
            let k = choose|k: int| 0 <= k < groups.entries().len() && groups.entries()[k].0 == n;
            crate::packages::lemma_installed_map_entry(groups.entries(), k);
        }
        assert(result@ =~= groups@);
    }
    let mut i: usize = 0;
    while i < packages.len()
        invariant
            groups.wf(),
            packages.wf(),
            i <= packages.entries().len(),
            result.wf(),
            forall|n: Seq<char>|
                #![trigger result@.contains_key(n)]
                result@.contains_key(n) <==> (groups@.contains_key(n) || exists|j: int|
                    0 <= j < i && packages.entries()[j].0 == n),
            forall|n: Seq<char>| #[trigger] groups@.contains_key(n) ==> result@[n] == groups@[n],
            forall|j: int|
                0 <= j < i && !groups@.contains_key(#[trigger] packages.entries()[j].0)
                    ==> result@[packages.entries()[j].0] == packages.entries()[j].1,
        decreases packages.entries().len() - i,
    {
        let name = packages.get(i).name.clone();
        let group = match &packages.get(i).group {
            Some(g) => Some(g.clone()),
            None => None,
        };
        result.insert(Package::new(name, group));
        i = i + 1;
    }
    proof {
        assert forall|n: Seq<char>| #[trigger]
            result@.contains_key(n) implies result@[n] == packages@.union_prefer_right(groups@)[n]
        by {
            if !groups@.contains_key(n) {
                let k = choose|k: int|
                    0 <= k < packages.entries().len() && packages.entries()[k].0 == n;
                crate::packages::lemma_installed_map_entry(packages.entries(), k);
            }
        }
        assert forall|n: Seq<char>| #[trigger]
            packages@.contains_key(n) implies result@.contains_key(n) by {
            let k = choose|k: int| 0 <= k < packages.entries().len() && packages.entries()[k].0 == n;
        }
        assert(result@ =~= packages@.union_prefer_right(groups@));
    }
    result
}

/// The names, in order, of the entries that pacman manages.
pub open spec fn managed_names(s: Seq<(Seq<char>, PackageManager)>) -> Seq<Seq<char>>
    decreases s.len(),
{
    if s.len() == 0 {
        Seq::empty()
    } else if s.last().1 == PackageManager::PACMAN {
        managed_names(s.drop_last()).push(s.last().0)
    } else {
        managed_names(s.drop_last())
    }
}

fn command(operation: &str, set: &crate::packages::PackageOrGroupSet) -> (r: Vec<String>)
    ensures
        r.deep_view() == seq!["sudo"@, "pacman"@, operation@] + managed_names(set.entries()),
{
    let mut args: Vec<String> = Vec::new();
    args.push(String::from_str("sudo"));
    args.push(String::from_str("pacman"));
    args.push(String::from_str(operation));
    let ghost head = seq!["sudo"@, "pacman"@, operation@];
    assert(args.deep_view() =~= head + managed_names(set.entries().take(0)));
    let mut i: usize = 0;
    while i < set.len()
        invariant
            i <= set.entries().len(),
            args.deep_view() == head + managed_names(set.entries().take(i as int)),
        decreases set.entries().len() - i,
    {
        let p = set.get(i);
        let ghost before = args.deep_view();
        proof {
            assert(set.entries().take(i + 1).drop_last() =~= set.entries().take(i as int));
            assert(set.entries().take(i + 1).last() == set.entries()[i as int]);
        }
        if p.manager == PackageManager::PACMAN {
            args.push(p.name.clone());
            assert(args.deep_view() =~= before.push(p.name@));
            assert(args.deep_view() =~= head + managed_names(set.entries().take(i + 1)));
        }
        i = i + 1;
    }
    assert(set.entries().take(i as int) =~= set.entries());
    args
}

/// The arguments of the command that installs what is to be added and
/// managed by pacman.
pub fn build_install_command(actions: &Actions) -> (r: Vec<String>)
    ensures
        r.deep_view() == seq!["sudo"@, "pacman"@, "-S"@] + managed_names(actions.to_add.entries()),
{
    command("-S", &actions.to_add)
}

/// The arguments of the command that removes what is to be deleted.
pub fn build_remove_command(actions: &Actions) -> (r: Vec<String>)
    ensures
        r.deep_view() == seq!["sudo"@, "pacman"@, "-R"@] + managed_names(
            actions.to_delete.entries(),
        ),
{
    command("-R", &actions.to_delete)
}

} // verus!
