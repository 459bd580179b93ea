//! The reconciler: from the desired and the installed sets to the packages to
//! add and to delete.

use vstd::prelude::*;
use crate::packages::{
    installed_groups, manager_name, names_of, DesiredModel, InstalledModel, Package, PackageManager,
    PackageOrGroup, PackageOrGroupSet, PackageSet,
};

verus! {

/// A desired name is satisfied when a package of that name is installed, or
/// a group of that name brought in some installed package.
pub open spec fn is_satisfied(name: Seq<char>, installed: InstalledModel) -> bool {
    installed.contains_key(name) || installed_groups(installed).contains(name)
}

/// An installed package is wanted when its own name is desired, or the group
/// that brought it in is.
pub open spec fn is_wanted(name: Seq<char>, group: Option<Seq<char>>, desired: DesiredModel) -> bool {
    names_of(desired).contains(name) || (group is Some && names_of(desired).contains(
        group.unwrap(),
    ))
}

/// The desired entries that nothing installed satisfies, provider kept.
pub open spec fn spec_to_add(desired: DesiredModel, installed: InstalledModel) -> DesiredModel {
    desired.filter(|e: (Seq<char>, PackageManager)| !is_satisfied(e.0, installed))
}

/// The installed packages that are not wanted, each under the managed
/// provider.
pub open spec fn spec_to_delete(desired: DesiredModel, installed: InstalledModel) -> DesiredModel {
    Set::new(
        |e: (Seq<char>, PackageManager)|
            e.1 == PackageManager::PACMAN && installed.contains_key(e.0) && !is_wanted(
                e.0,
                installed[e.0],
                desired,
            ),
    )
}

/// Desired names that nothing installed satisfies and installed packages
/// that nothing desired wants: when there are none of either, there is
/// nothing to add and nothing to delete.
pub proof fn lemma_covered_means_no_actions(desired: DesiredModel, installed: InstalledModel)
    requires
        forall|e: (Seq<char>, PackageManager)| #[trigger]
            desired.contains(e) ==> is_satisfied(e.0, installed),
        forall|n: Seq<char>| #[trigger]
            installed.contains_key(n) ==> is_wanted(n, installed[n], desired),
    ensures
        spec_to_add(desired, installed) == Set::<(Seq<char>, PackageManager)>::empty(),
        spec_to_delete(desired, installed) == Set::<(Seq<char>, PackageManager)>::empty(),
{
    assert(spec_to_add(desired, installed) =~= Set::<(Seq<char>, PackageManager)>::empty());
    assert(spec_to_delete(desired, installed) =~= Set::<(Seq<char>, PackageManager)>::empty());
}

/// No name is both to be added and to be deleted.
pub proof fn lemma_no_overlap(desired: DesiredModel, installed: InstalledModel)
    ensures
        names_of(spec_to_add(desired, installed)).disjoint(
            names_of(spec_to_delete(desired, installed)),
        ),
{
    assert forall|n: Seq<char>|
        #[trigger] names_of(spec_to_add(desired, installed)).contains(n) implies !names_of(
            spec_to_delete(desired, installed),
        ).contains(n) by {
        let m = choose|m: PackageManager| spec_to_add(desired, installed).contains((n, m));
        assert(desired.contains((n, m)));
        assert(names_of(desired).contains(n));
    }
}

/// An installed package brought in by a desired group is never deleted, even
/// when its own name is not desired.
pub proof fn lemma_group_keeps_members(
    desired: DesiredModel,
    installed: InstalledModel,
    name: Seq<char>,
    group: Seq<char>,
)
    requires
        installed.contains_key(name),
        installed[name] == Some(group),
        names_of(desired).contains(group),
    ensures
        !names_of(spec_to_delete(desired, installed)).contains(name),
{
}

/// What has to change for the installed set to match the desired one.
#[derive(Debug, PartialEq)]
pub struct Actions {
    pub to_add: PackageOrGroupSet,
    pub to_delete: PackageOrGroupSet,
}

impl Actions {
    pub open spec fn wf(&self) -> bool {
        self.to_add.wf() && self.to_delete.wf()
    }

    /// Nothing to add and nothing to delete.
    pub fn is_empty(&self) -> (r: bool)
        ensures
            r == (self.to_add@.is_empty() && self.to_delete@.is_empty()),
    {
        let a = self.to_add.is_empty();
        let d = self.to_delete.is_empty();
        proof {
            if !a {
                assert(!(self.to_add@ == Set::<(Seq<char>, PackageManager)>::empty()));
                assert(!self.to_add@.is_empty());
            }
            if !d {
                assert(!self.to_delete@.is_empty());
            }
        }
        a && d
    }
}

/// One line of the listing: `\t- name (provider)`.
pub open spec fn entry_line(e: (Seq<char>, PackageManager)) -> Seq<char> {
    "\t- "@ + e.0 + " ("@ + manager_name(e.1) + ")\n"@
}

/// A title followed by one line per entry, in order.
pub open spec fn section(title: Seq<char>, s: Seq<(Seq<char>, PackageManager)>) -> Seq<char>
    decreases s.len(),
{
    if s.len() == 0 {
        title
    } else {
        section(title, s.drop_last()) + entry_line(s.last())
    }
}

/// The listing of a set of actions: a fixed text when there is nothing to
/// do, else a section for the entries to add and one for those to delete,
/// each left out when it has no entry.
pub open spec fn rendered(
    add: Seq<(Seq<char>, PackageManager)>,
    delete: Seq<(Seq<char>, PackageManager)>,
) -> Seq<char> {
    if add.len() == 0 && delete.len() == 0 {
        "Nothing to do"@
    } else {
        (if add.len() == 0 {
            Seq::<char>::empty()
        } else {
            section("To add:\n"@, add)
        }) + (if delete.len() == 0 {
            Seq::<char>::empty()
        } else {
            section("To delete:\n"@, delete)
        })
    }
}

fn append_section(out: &mut String, title: &str, set: &PackageOrGroupSet)
    ensures
        final(out)@ == old(out)@ + section(title@, set.entries()),
{
    out.append(title);
    let mut i: usize = 0;
    while i < set.len()
        invariant
            i <= set.entries().len(),
            out@ == old(out)@ + section(title@, set.entries().take(i as int)),
        decreases set.entries().len() - i,
    {
        let p = set.get(i);
        let manager = p.manager.to_string();
        out.append("\t- ");
        out.append(p.name.as_str());
        out.append(" (");
        out.append(manager.as_str());
        out.append(")\n");
        proof {
            let t = set.entries().take(i + 1);
            assert(t.drop_last() =~= set.entries().take(i as int));
            assert(t.last() == set.entries()[i as int]);
        }
        i = i + 1;
    }
    assert(set.entries().take(i as int) =~= set.entries());
}

impl Actions {
    /// The listing of these actions, as `rendered` states it.
    pub fn to_string(&self) -> (r: String)
        ensures
            r@ == rendered(self.to_add.entries(), self.to_delete.entries()),
    {
        let mut out = String::new();
        let add_empty = self.to_add.len() == 0;
        let delete_empty = self.to_delete.len() == 0;
        if add_empty && delete_empty {
            out.append("Nothing to do");
            return out;
        }
        if !add_empty {
            append_section(&mut out, "To add:\n", &self.to_add);
        }
        if !delete_empty {
            append_section(&mut out, "To delete:\n", &self.to_delete);
        }
        out
    }
}

/// Computes the packages to add and to delete.
pub fn compute_actions(reference: PackageOrGroupSet, current: PackageSet) -> (r: Actions)
    requires
        reference.wf(),
        current.wf(),
    ensures
        r.wf(),
        r.to_add@ == spec_to_add(reference@, current@),
        r.to_delete@ == spec_to_delete(reference@, current@),
{
    let mut to_add = PackageOrGroupSet::new();
    let mut i: usize = 0;
    while i < reference.len()
        invariant
            current.wf(),
            to_add.wf(),
            i <= reference.entries().len(),
            forall|e: (Seq<char>, PackageManager)|
                #![trigger to_add@.contains(e)]
                to_add@.contains(e) <==> (exists|j: int|
                    0 <= j < i && reference.entries()[j] == e && !is_satisfied(e.0, current@)),
        decreases reference.entries().len() - i,
    {
        let p = reference.get(i);
        let installed = current.contains_name(&p.name) || current.contains_group(&p.name);
        if !installed {
            to_add.insert(PackageOrGroup::new(p.name.clone(), p.manager));
        }
        i = i + 1;
    }
    assert(to_add@ =~= spec_to_add(reference@, current@));
    let mut to_delete = PackageOrGroupSet::new();
    let mut i: usize = 0;
    while i < current.len()
        invariant
            reference.wf(),
            current.wf(),
            to_delete.wf(),
            i <= current.entries().len(),
            forall|e: (Seq<char>, PackageManager)|
                #![trigger to_delete@.contains(e)]
                to_delete@.contains(e) <==> (e.1 == PackageManager::PACMAN && exists|j: int|
                    0 <= j < i && current.entries()[j].0 == e.0 && !is_wanted(
                        e.0,
                        current.entries()[j].1,
                        reference@,
                    )),
        decreases current.entries().len() - i,
    {
        let p: &Package = current.get(i);
        let wanted = reference.contains_name(&p.name) || match &p.group {
            Some(g) => reference.contains_name(g),
            None => false,
        };
        if !wanted {
            to_delete.insert(PackageOrGroup::new(p.name.clone(), PackageManager::PACMAN));
        }
        i = i + 1;
    }
    proof {
        assert forall|e: (Seq<char>, PackageManager)|
            #[trigger] to_delete@.contains(e) == spec_to_delete(reference@, current@).contains(e) by {
            if to_delete@.contains(e) {
                let j = choose|j: int|
                    0 <= j < current.entries().len() && current.entries()[j].0 == e.0 && !is_wanted(
                        e.0,
                        current.entries()[j].1,
                        reference@,
                    );
                crate::packages::lemma_installed_map_entry(current.entries(), j);
            }
            if spec_to_delete(reference@, current@).contains(e) {
                let j = choose|j: int|
                    0 <= j < current.entries().len() && current.entries()[j].0 == e.0;
                crate::packages::lemma_installed_map_entry(current.entries(), j);
            }
        }
        assert(to_delete@ =~= spec_to_delete(reference@, current@));
    }
    Actions { to_add, to_delete }
}

} // verus!
