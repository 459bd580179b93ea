//! Identity model: desired entries (qualified by a provider) and installed
//! entries (identified by name alone).

use vstd::prelude::*;

verus! {

/// The provider that manages a package or group.
#[derive(PartialEq, Eq, Structural, Hash, Debug, Clone, Copy)]
pub enum PackageManager {
    PACMAN,
    LOCAL,
}

/// A package or group that should be present, with the provider that
/// installs it.
#[derive(Hash, Debug, Clone)]
pub struct PackageOrGroup {
    pub name: String,
    pub manager: PackageManager,
}

impl View for PackageOrGroup {
    type V = (Seq<char>, PackageManager);

    open spec fn view(&self) -> (Seq<char>, PackageManager) {
        (self.name@, self.manager)
    }
}

impl PartialEq for PackageOrGroup {
    fn eq(&self, other: &PackageOrGroup) -> (r: bool) {
        self.name == other.name && self.manager == other.manager
    }
}

impl vstd::std_specs::cmp::PartialEqSpecImpl for PackageOrGroup {
    open spec fn obeys_eq_spec() -> bool {
        true
    }

    open spec fn eq_spec(&self, other: &PackageOrGroup) -> bool {
        self@ == other@
    }
}

impl Eq for PackageOrGroup {}

/// How a provider is written in configuration and in listings.
pub open spec fn manager_name(m: PackageManager) -> Seq<char> {
    match m {
        PackageManager::PACMAN => "pacman"@,
        PackageManager::LOCAL => "local"@,
    }
}

impl PackageManager {
    pub fn to_string(&self) -> (r: String)
        ensures
            r@ == manager_name(*self),
    {
        match self {
            PackageManager::PACMAN => String::from_str("pacman"),
            PackageManager::LOCAL => String::from_str("local"),
        }
    }
}

impl PackageOrGroup {
    pub fn new(name: String, manager: PackageManager) -> (r: Self)
        ensures
            r@ == (name@, manager),
    {
        PackageOrGroup { name, manager }
    }
}

/// A package that is installed, with the group that brought it in, if any.
/// Two installed packages are the same entity when their names are equal:
/// the group is incidental.
#[derive(Debug, Clone)]
pub struct Package {
    pub name: String,
    pub group: Option<String>,
}

impl View for Package {
    type V = (Seq<char>, Option<Seq<char>>);

    open spec fn view(&self) -> (Seq<char>, Option<Seq<char>>) {
        (self.name@, self.group.deep_view())
    }
}

impl PartialEq for Package {
    fn eq(&self, other: &Package) -> (r: bool) {
        self.name == other.name
    }
}

impl vstd::std_specs::cmp::PartialEqSpecImpl for Package {
    open spec fn obeys_eq_spec() -> bool {
        true
    }

    open spec fn eq_spec(&self, other: &Package) -> bool {
        self.name@ == other.name@
    }
}

impl Eq for Package {}

impl core::hash::Hash for Package {
    /// Relies on the `Hash` impl of `String`: only the name is fed to the
    /// hasher, so packages equal by name hash alike.
    #[verifier::external_body]
    fn hash<H: core::hash::Hasher>(&self, state: &mut H) {
        self.name.hash(state)
    }
}

impl Package {
    pub fn new(name: String, group: Option<String>) -> (r: Package)
        ensures
            r@ == (name@, group.deep_view()),
    {
        Package { name, group }
    }
}

/// The model of a set of desired entries: the pairs of name and provider.
pub type DesiredModel = Set<(Seq<char>, PackageManager)>;

/// The model of a set of installed packages: each installed name, mapped to
/// the group that brought it in, if any.
pub type InstalledModel = Map<Seq<char>, Option<Seq<char>>>;

/// A set of desired entries, unique by name and provider.
#[derive(Debug, Clone)]
pub struct PackageOrGroupSet {
    items: Vec<PackageOrGroup>,
}

impl View for PackageOrGroupSet {
    type V = DesiredModel;

    open spec fn view(&self) -> DesiredModel {
        self.entries().to_set()
    }
}

impl PackageOrGroupSet {
    /// The entries in the order in which they are stored.
    pub closed spec fn entries(&self) -> Seq<(Seq<char>, PackageManager)> {
        self.items@.map_values(|p: PackageOrGroup| p@)
    }

    pub open spec fn wf(&self) -> bool {
        self.entries().no_duplicates()
    }

    pub fn new() -> (r: PackageOrGroupSet)
        ensures
            r.wf(),
            r.entries() == Seq::<(Seq<char>, PackageManager)>::empty(),
            r@ == Set::<(Seq<char>, PackageManager)>::empty(),
    {
        let r = PackageOrGroupSet { items: Vec::new() };
        assert(r.entries() =~= Seq::<(Seq<char>, PackageManager)>::empty());
        assert(r@ =~= Set::<(Seq<char>, PackageManager)>::empty());
        r
    }

    pub fn len(&self) -> (r: usize)
        ensures
            r == self.entries().len(),
            self.wf() ==> r == self@.len(),
    {
        proof {
            if self.wf() {
                self.entries().unique_seq_to_set();
            }
        }
        self.items.len()
    }

    pub fn is_empty(&self) -> (r: bool)
        ensures
            r == (self@ == Set::<(Seq<char>, PackageManager)>::empty()),
            r == (self.entries().len() == 0),
    {
        if self.items.len() == 0 {
            assert(self@ =~= Set::<(Seq<char>, PackageManager)>::empty());
            true
        } else {
            assert(self@.contains(self.entries()[0]));
            false
        }
    }

    pub fn get(&self, i: usize) -> (r: &PackageOrGroup)
        requires
            i < self.entries().len(),
        ensures
            r@ == self.entries()[i as int],
    {
        &self.items[i]
    }

    pub fn contains(&self, p: &PackageOrGroup) -> (r: bool)
        ensures
            r == self@.contains(p@),
    {
        let mut i: usize = 0;
        while i < self.items.len()
            invariant
                i <= self.entries().len(),
                forall|j: int| 0 <= j < i ==> self.entries()[j] != p@,
            decreases self.items.len() - i,
        {
            if self.items[i] == *p {
                assert(self.entries()[i as int] == p@);
                return true;
            }
            i = i + 1;
        }
        false
    }

    /// Whether some entry has this name, whatever its provider.
    pub fn contains_name(&self, name: &String) -> (r: bool)
        ensures
            r == names_of(self@).contains(name@),
    {
        let mut i: usize = 0;
        while i < self.items.len()
            invariant
                i <= self.entries().len(),
                forall|j: int| 0 <= j < i ==> self.entries()[j].0 != name@,
            decreases self.items.len() - i,
        {
            if self.items[i].name == *name {
                assert(self@.contains(self.entries()[i as int]));
                return true;
            }
            i = i + 1;
        }
        false
    }

    /// Adds an entry; returns whether it was absent.
    pub fn insert(&mut self, p: PackageOrGroup) -> (r: bool)
        requires
            old(self).wf(),
        ensures
            final(self).wf(),
            r == !old(self)@.contains(p@),
            final(self)@ == old(self)@.insert(p@),
            final(self).entries() == (if r {
                old(self).entries().push(p@)
            } else {
                old(self).entries()
            }),
    {
        if self.contains(&p) {
            assert(old(self)@.insert(p@) =~= old(self)@);
            false
        } else {
            let ghost pv = p@;
            self.items.push(p);
            assert(self.entries() =~= old(self).entries().push(pv));
            proof {
                old(self).entries().lemma_push_to_set_commute(pv);
            }
            true
        }
    }
}

impl PartialEq for PackageOrGroupSet {
    fn eq(&self, other: &PackageOrGroupSet) -> (r: bool) {
        let r = self.is_subset_of(other) && other.is_subset_of(self);
        proof {
            if r {
                assert(self@ =~= other@);
            }
        }
        r
    }
}

impl vstd::std_specs::cmp::PartialEqSpecImpl for PackageOrGroupSet {
    open spec fn obeys_eq_spec() -> bool {
        true
    }

    open spec fn eq_spec(&self, other: &PackageOrGroupSet) -> bool {
        self@ == other@
    }
}

impl Eq for PackageOrGroupSet {}

impl PackageOrGroupSet {
    pub fn is_subset_of(&self, other: &PackageOrGroupSet) -> (r: bool)
        ensures
            r == self@.subset_of(other@),
    {
        let mut i: usize = 0;
        while i < self.items.len()
            invariant
                i <= self.entries().len(),
                forall|j: int| 0 <= j < i ==> other@.contains(#[trigger] self.entries()[j]),
            decreases self.items.len() - i,
        {
            if !other.contains(&self.items[i]) {
                assert(self@.contains(self.entries()[i as int]));
                return false;
            }
            i = i + 1;
        }
        assert(self@.subset_of(other@));
        true
    }
}

/// The names of a set of desired entries, providers left out.
pub open spec fn names_of(d: DesiredModel) -> Set<Seq<char>> {
    Set::new(|n: Seq<char>| exists|m: PackageManager| d.contains((n, m)))
}

/// Installed entries in storage order, viewed as pairs of name and group.
pub type InstalledEntries = Seq<(Seq<char>, Option<Seq<char>>)>;

/// No name occurs twice.
pub open spec fn unique_names(s: InstalledEntries) -> bool {
    forall|i: int, j: int| 0 <= i < j < s.len() ==> s[i].0 != s[j].0
}

/// Each stored name, mapped to the group of the entry that holds it.
pub open spec fn installed_map(s: InstalledEntries) -> InstalledModel {
    Map::new(
        |n: Seq<char>| exists|i: int| 0 <= i < s.len() && s[i].0 == n,
        |n: Seq<char>| s[choose|i: int| 0 <= i < s.len() && s[i].0 == n].1,
    )
}

/// Inserting an installed package: an entry whose name is already present
/// is left as it was, whatever the new group.
pub open spec fn installed_insert(
    m: InstalledModel,
    name: Seq<char>,
    group: Option<Seq<char>>,
) -> InstalledModel {
    if m.contains_key(name) {
        m
    } else {
        m.insert(name, group)
    }
}

/// The groups that brought in at least one installed package.
pub open spec fn installed_groups(m: InstalledModel) -> Set<Seq<char>> {
    Set::new(|g: Seq<char>| exists|n: Seq<char>| m.contains_key(n) && m[n] == Some(g))
}

/// Inserting a second package under a name that is already there, with any
/// group, changes nothing: installed packages are one entity per name.
pub proof fn lemma_insert_same_name_once(
    m: InstalledModel,
    name: Seq<char>,
    first: Option<Seq<char>>,
    second: Option<Seq<char>>,
)
    ensures
        installed_insert(installed_insert(m, name, first), name, second) == installed_insert(
            m,
            name,
            first,
        ),
        installed_insert(m, name, first).contains_key(name),
{
}

pub proof fn lemma_installed_map_entry(s: InstalledEntries, i: int)
    requires
        unique_names(s),
        0 <= i < s.len(),
    ensures
        installed_map(s).contains_key(s[i].0),
        installed_map(s)[s[i].0] == s[i].1,
{
    let n = s[i].0;
    assert(exists|k: int| 0 <= k < s.len() && s[k].0 == n);
    let k = choose|k: int| 0 <= k < s.len() && s[k].0 == n;
    assert(k == i);
}

/// A set of installed packages, unique by name.
#[derive(Debug, Clone)]
pub struct PackageSet {
    items: Vec<Package>,
}

impl View for PackageSet {
    type V = InstalledModel;

    open spec fn view(&self) -> InstalledModel {
        installed_map(self.entries())
    }
}

impl PackageSet {
    /// The entries in the order in which they are stored.
    pub closed spec fn entries(&self) -> InstalledEntries {
        self.items@.map_values(|p: Package| p@)
    }

    pub open spec fn wf(&self) -> bool {
        unique_names(self.entries())
    }

    pub fn new() -> (r: PackageSet)
        ensures
            r.wf(),
            r.entries() == InstalledEntries::empty(),
            r@ == InstalledModel::empty(),
    {
        let r = PackageSet { items: Vec::new() };
        assert(r.entries() =~= InstalledEntries::empty());
        assert(r@ =~= InstalledModel::empty());
        r
    }

    pub fn len(&self) -> (r: usize)
        ensures
            r == self.entries().len(),
            self.wf() ==> r == self@.dom().len(),
    {
        proof {
            if self.wf() {
                let names = self.entries().map_values(|e: (Seq<char>, Option<Seq<char>>)| e.0);
                assert(names.no_duplicates());
                names.unique_seq_to_set();
                assert(names.to_set() =~= self@.dom()) by {
                    assert forall|n: Seq<char>| #[trigger] self@.dom().contains(n) implies names.contains(n) by {
                        let k = choose|k: int| 0 <= k < self.entries().len() && self.entries()[k].0 == n;
                        assert(names[k] == n);
                    }
                }
            }
        }
        self.items.len()
    }

    pub fn is_empty(&self) -> (r: bool)
        requires
            self.wf(),
        ensures
            r == (self@ == InstalledModel::empty()),
            r == (self.entries().len() == 0),
    {
        if self.items.len() == 0 {
            assert(self@ =~= InstalledModel::empty());
            true
        } else {
            proof {
                lemma_installed_map_entry(self.entries(), 0);
            }
            false
        }
    }

    pub fn get(&self, i: usize) -> (r: &Package)
        requires
            i < self.entries().len(),
        ensures
            r@ == self.entries()[i as int],
    {
        &self.items[i]
    }

    /// Whether a package of this name is installed.
    pub fn contains_name(&self, name: &String) -> (r: bool)
        ensures
            r == self@.contains_key(name@),
    {
        let mut i: usize = 0;
        while i < self.items.len()
            invariant
                i <= self.entries().len(),
                forall|j: int| 0 <= j < i ==> self.entries()[j].0 != name@,
            decreases self.items.len() - i,
        {
            if self.items[i].name == *name {
                assert(self.entries()[i as int].0 == name@);
                return true;
            }
            i = i + 1;
        }
        false
    }

    /// Whether some installed package was brought in by a group of this name.
    pub fn contains_group(&self, name: &String) -> (r: bool)
        requires
            self.wf(),
        ensures
            r == installed_groups(self@).contains(name@),
    {
        let mut i: usize = 0;
        while i < self.items.len()
            invariant
                self.wf(),
                i <= self.entries().len(),
                forall|j: int| 0 <= j < i ==> self.entries()[j].1 != Some(name@),
            decreases self.items.len() - i,
        {
            let found = match &self.items[i].group {
                Some(g) => *g == *name,
                None => false,
            };
            if found {
                proof {
                    lemma_installed_map_entry(self.entries(), i as int);
                    assert(self@[self.entries()[i as int].0] == Some(name@));
                }
                return true;
            }
            i = i + 1;
        }
        proof {
            assert forall|n: Seq<char>| self@.contains_key(n) implies self@[n] != Some(name@) by {
                let k = choose|k: int| 0 <= k < self.entries().len() && self.entries()[k].0 == n;
                lemma_installed_map_entry(self.entries(), k);
            }
        }
        false
    }

    /// Adds a package unless one of the same name is there already; returns
    /// whether it was added.
    pub fn insert(&mut self, p: Package) -> (r: bool)
        requires
            old(self).wf(),
        ensures
            final(self).wf(),
            r == !old(self)@.contains_key(p@.0),
            final(self)@ == installed_insert(old(self)@, p@.0, p@.1),
    {
        if self.contains_name(&p.name) {
            false
        } else {
            let ghost pv = p@;
            let ghost olds = self.entries();
            self.items.push(p);
            proof {
                let news = self.entries();
                assert(news =~= olds.push(pv));
                assert(forall|j: int| 0 <= j < olds.len() ==> olds[j].0 != pv.0);
                assert forall|n: Seq<char>|
                    #[trigger] self@.contains_key(n) == old(self)@.insert(pv.0, pv.1).contains_key(n)
                by {
                    if old(self)@.contains_key(n) {
                        let k = choose|k: int| 0 <= k < olds.len() && olds[k].0 == n;
                        assert(news[k].0 == n);
                    }
                    if n == pv.0 {
                        assert(news[olds.len() as int].0 == n);
                    }
                }
                assert forall|n: Seq<char>| #[trigger]
                    self@.contains_key(n) implies self@[n] == old(self)@.insert(pv.0, pv.1)[n]
                by {
                    let k = choose|k: int| 0 <= k < news.len() && news[k].0 == n;
                    lemma_installed_map_entry(news, k);
                    if k < olds.len() {
                        lemma_installed_map_entry(olds, k);
                    }
                }
                assert(self@ =~= old(self)@.insert(pv.0, pv.1));
            }
            true
        }
    }
}

} // verus!
