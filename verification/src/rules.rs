//! The rule engine: include/exclude sets over paths, folders, extensions
//! and file names.
//!
//! Rules form sets, not lists: adding is idempotent on the key of
//! (category, type, value), where extension and file-name values compare
//! case-insensitively.  The read queries have no side effects.

use vstd::prelude::*;
use crate::text::{chars_eq, chars_eq_ignore_case, chars_vec, eq_ignore_case};
use vstd::string::StringExecFns;

verus! {

/// Whether a rule includes or excludes what it names.
#[derive(Clone, Copy, Debug, PartialEq, Eq, Structural)]
pub enum RuleType {
    Include,
    Exclude,
}

impl RuleType {
    /// The tag this rule type is stored under.
    pub fn as_str(&self) -> (r: &'static str)
        ensures
            (*self is Include) ==> r@ == "include"@,
            (*self is Exclude) ==> r@ == "exclude"@,
    {
        match self {
            RuleType::Include => "include",
            RuleType::Exclude => "exclude",
        }
    }
}

/// Which dimension of a path a rule constrains.
#[derive(Clone, Copy, Debug, PartialEq, Eq, Structural)]
pub enum RuleCategory {
    Path,
    Folder,
    Extension,
    Filename,
}

impl RuleCategory {
    /// The table this category's rules are stored in.
    pub fn table_name(&self) -> (r: &'static str)
        ensures
            (*self is Path) ==> r@ == "path_rules"@,
            (*self is Folder) ==> r@ == "folder_rules"@,
            (*self is Extension) ==> r@ == "extension_rules"@,
            (*self is Filename) ==> r@ == "filename_rules"@,
    {
        match self {
            RuleCategory::Path => "path_rules",
            RuleCategory::Folder => "folder_rules",
            RuleCategory::Extension => "extension_rules",
            RuleCategory::Filename => "filename_rules",
        }
    }

    /// The column this category's values are stored in.
    pub fn column_name(&self) -> (r: &'static str)
        ensures
            (*self is Path) ==> r@ == "path"@,
            (*self is Folder) ==> r@ == "folder_name"@,
            (*self is Extension) ==> r@ == "extension"@,
            (*self is Filename) ==> r@ == "filename"@,
    {
        match self {
            RuleCategory::Path => "path",
            RuleCategory::Folder => "folder_name",
            RuleCategory::Extension => "extension",
            RuleCategory::Filename => "filename",
        }
    }
}

/// One stored rule.
pub struct RuleEntry {
    pub category: RuleCategory,
    pub rule_type: RuleType,
    pub value: String,
    pub recursive: bool,
    pub created_at: String,
}

/// Do two values coincide as keys of the given category?  Extensions and
/// file names compare case-insensitively; paths and folders exactly.
pub open spec fn value_key_eq(category: RuleCategory, a: Seq<char>, b: Seq<char>) -> bool {
    match category {
        RuleCategory::Extension => eq_ignore_case(a, b),
        RuleCategory::Filename => eq_ignore_case(a, b),
        _ => a == b,
    }
}

/// Does an entry carry this (category, type, value) key?
pub open spec fn entry_has_key(
    e: RuleEntry,
    category: RuleCategory,
    rule_type: RuleType,
    value: Seq<char>,
) -> bool {
    e.category == category && e.rule_type == rule_type && value_key_eq(category, e.value@, value)
}

/// Is the key present in the rule list?
pub open spec fn key_present(
    rules: Seq<RuleEntry>,
    category: RuleCategory,
    rule_type: RuleType,
    value: Seq<char>,
) -> bool {
    exists|i: int| 0 <= i < rules.len() && entry_has_key(#[trigger] rules[i], category, rule_type, value)
}

/// The values of the entries under (category, type), in insertion order,
/// from position `i` on.
pub open spec fn values_of(
    rules: Seq<RuleEntry>,
    category: RuleCategory,
    rule_type: RuleType,
    i: int,
) -> Seq<Seq<char>>
    decreases rules.len() - i,
{
    if i < 0 || i >= rules.len() {
        Seq::empty()
    } else if rules[i].category == category && rules[i].rule_type == rule_type {
        seq![rules[i].value@] + values_of(rules, category, rule_type, i + 1)
    } else {
        values_of(rules, category, rule_type, i + 1)
    }
}

/// The rule store: the additive sets the discovery rules are read from.
pub struct RuleStore {
    pub rules: Vec<RuleEntry>,
}

impl RuleStore {
    /// The store's invariant: no two entries share a key, so each rule
    /// set really is a set.
    pub open spec fn inv(self) -> bool {
        forall|i: int, j: int|
            0 <= i < j < self.rules@.len() ==> !entry_has_key(
                #[trigger] self.rules@[j],
                self.rules@[i].category,
                self.rules@[i].rule_type,
                #[trigger] self.rules@[i].value@,
            )
    }

    /// An empty rule store.
    pub fn new() -> (r: Self)
        ensures
            r.inv(),
            r.rules@.len() == 0,
    {
        RuleStore { rules: Vec::new() }
    }

    /// Is this key already present?
    fn has_key(&self, category: RuleCategory, rule_type: RuleType, value: &Vec<char>) -> (r: bool)
        ensures
            r == key_present(self.rules@, category, rule_type, value@),
    {
        let mut i: usize = 0;
        while i < self.rules.len()
            invariant
                i <= self.rules@.len(),
                forall|j: int|
                    0 <= j < i ==> !entry_has_key(#[trigger] self.rules@[j], category, rule_type, value@),
            decreases self.rules.len() - i,
        {
            let e = &self.rules[i];
            let same_cat: bool = match (e.category, category) {
                (RuleCategory::Path, RuleCategory::Path) => true,
                (RuleCategory::Folder, RuleCategory::Folder) => true,
                (RuleCategory::Extension, RuleCategory::Extension) => true,
                (RuleCategory::Filename, RuleCategory::Filename) => true,
                _ => false,
            };
            let same_type: bool = match (e.rule_type, rule_type) {
                (RuleType::Include, RuleType::Include) => true,
                (RuleType::Exclude, RuleType::Exclude) => true,
                _ => false,
            };
            if same_cat && same_type {
                let ev = chars_vec(e.value.as_str());
                let value_hit: bool = match category {
                    RuleCategory::Extension => chars_eq_ignore_case(&ev, value),
                    RuleCategory::Filename => chars_eq_ignore_case(&ev, value),
                    _ => chars_eq(&ev, value),
                };
                if value_hit {
                    proof {
                        assert(entry_has_key(self.rules@[i as int], category, rule_type, value@));
                    }
                    return true;
                }
            }
            i = i + 1;
        }
        false
    }

    /// Add one rule.  Adding is idempotent: a key that is already present
    /// leaves the store exactly as it was.
    pub fn add_rule(
        &mut self,
        category: RuleCategory,
        rule_type: RuleType,
        value: &str,
        recursive: bool,
        created_at: &str,
    )
        requires
            old(self).inv(),
        ensures
            final(self).inv(),
            key_present(old(self).rules@, category, rule_type, value@) ==> *final(self) == *old(self),
            !key_present(old(self).rules@, category, rule_type, value@) ==> {
                &&& final(self).rules@.len() == old(self).rules@.len() + 1
                &&& final(self).rules@.take(old(self).rules@.len() as int) == old(self).rules@
                &&& ({
                    let e = final(self).rules@.last();
                    &&& e.category == category
                    &&& e.rule_type == rule_type
                    &&& e.value@ == value@
                    &&& e.recursive == recursive
                    &&& e.created_at@ == created_at@
                })
            },
    {
        let v = chars_vec(value);
        if self.has_key(category, rule_type, &v) {
            return;
        }
        let entry = RuleEntry {
            category,
            rule_type,
            value: String::from_str(value),
            recursive,
            created_at: String::from_str(created_at),
        };
        self.rules.push(entry);
        proof {
            assert(final(self).rules@.take(old(self).rules@.len() as int) =~= old(self).rules@);
        }
    }

    /// Remove one rule by its key; a key that is absent changes nothing.
    pub fn remove_rule(&mut self, category: RuleCategory, rule_type: RuleType, value: &str)
        requires
            old(self).inv(),
        ensures
            final(self).inv(),
            !key_present(final(self).rules@, category, rule_type, value@),
            !key_present(old(self).rules@, category, rule_type, value@) ==> *final(self) == *old(self),
            key_present(old(self).rules@, category, rule_type, value@) ==> exists|i: int|
                0 <= i < old(self).rules@.len() && entry_has_key(
                    #[trigger] old(self).rules@[i],
                    category,
                    rule_type,
                    value@,
                ) && final(self).rules@ == old(self).rules@.take(i) + old(self).rules@.skip(i + 1),
    {
        let v = chars_vec(value);
        let mut i: usize = 0;
        while i < self.rules.len()
            invariant
                self.inv(),
                *self == *old(self),
                v@ == value@,
                i <= self.rules@.len(),
                forall|j: int|
                    0 <= j < i ==> !entry_has_key(#[trigger] self.rules@[j], category, rule_type, value@),
            decreases self.rules.len() - i,
        {
            let e = &self.rules[i];
            let same_cat: bool = match (e.category, category) {
                (RuleCategory::Path, RuleCategory::Path) => true,
                (RuleCategory::Folder, RuleCategory::Folder) => true,
                (RuleCategory::Extension, RuleCategory::Extension) => true,
                (RuleCategory::Filename, RuleCategory::Filename) => true,
                _ => false,
            };
            let same_type: bool = match (e.rule_type, rule_type) {
                (RuleType::Include, RuleType::Include) => true,
                (RuleType::Exclude, RuleType::Exclude) => true,
                _ => false,
            };
            if same_cat && same_type {
                let ev = chars_vec(e.value.as_str());
                let value_hit: bool = match category {
                    RuleCategory::Extension => chars_eq_ignore_case(&ev, &v),
                    RuleCategory::Filename => chars_eq_ignore_case(&ev, &v),
                    _ => chars_eq(&ev, &v),
                };
                if value_hit {
                    proof {
                        assert(entry_has_key(self.rules@[i as int], category, rule_type, value@));
                    }
                    self.rules.remove(i);
                    proof {
                        assert(self.rules@ =~= old(self).rules@.take(i as int) + old(self).rules@.skip(i + 1));
                        assert forall|a: int, b: int| 0 <= a < b < self.rules@.len() implies !entry_has_key(
                            #[trigger] self.rules@[b],
                            self.rules@[a].category,
                            self.rules@[a].rule_type,
                            #[trigger] self.rules@[a].value@,
                        ) by {
                            let oa = if a < i as int { a } else { a + 1 };
                            let ob = if b < i as int { b } else { b + 1 };
                            assert(self.rules@[a] == old(self).rules@[oa]);
                            assert(self.rules@[b] == old(self).rules@[ob]);
                        }
                        assert forall|j: int| 0 <= j < self.rules@.len() implies !entry_has_key(
                            #[trigger] self.rules@[j],
                            category,
                            rule_type,
                            value@,
                        ) by {
                            let oj = if j < i as int { j } else { j + 1 };
                            assert(self.rules@[j] == old(self).rules@[oj]);
                            if oj > i as int {
                                assert(entry_has_key(old(self).rules@[i as int], category, rule_type, value@));
                                if entry_has_key(old(self).rules@[oj], category, rule_type, value@) {
                                    assert(entry_has_key(
                                        old(self).rules@[oj],
                                        old(self).rules@[i as int].category,
                                        old(self).rules@[i as int].rule_type,
                                        old(self).rules@[i as int].value@,
                                    ));
                                }
                            }
                        }
                    }
                    return;
                }
            }
            i = i + 1;
        }
    }

    /// The values stored under one (category, type) pair, in order.
    fn values_for(&self, category: RuleCategory, rule_type: RuleType) -> (r: Vec<String>)
        ensures
            r.deep_view() == values_of(self.rules@, category, rule_type, 0),
    {
        let mut r: Vec<String> = Vec::new();
        let ghost target = values_of(self.rules@, category, rule_type, 0);
        let mut i: usize = 0;
        proof {
            assert(r.deep_view() + values_of(self.rules@, category, rule_type, 0) =~= target);
        }
        while i < self.rules.len()
            invariant
                i <= self.rules@.len(),
                target == values_of(self.rules@, category, rule_type, 0),
                r.deep_view() + values_of(self.rules@, category, rule_type, i as int) =~~= target,
            decreases self.rules.len() - i,
        {
            let e = &self.rules[i];
            let same_cat: bool = match (e.category, category) {
                (RuleCategory::Path, RuleCategory::Path) => true,
                (RuleCategory::Folder, RuleCategory::Folder) => true,
                (RuleCategory::Extension, RuleCategory::Extension) => true,
                (RuleCategory::Filename, RuleCategory::Filename) => true,
                _ => false,
            };
            let same_type: bool = match (e.rule_type, rule_type) {
                (RuleType::Include, RuleType::Include) => true,
                (RuleType::Exclude, RuleType::Exclude) => true,
                _ => false,
            };
            let ghost before = r.deep_view();
            if same_cat && same_type {
                r.push(e.value.clone());
                proof {
                    assert(r.deep_view() =~~= before.push(self.rules@[i as int].value@));
                    assert(values_of(self.rules@, category, rule_type, i as int) =~= seq![self.rules@[i as int].value@] + values_of(self.rules@, category, rule_type, i + 1));
                }
            } else {
                proof {
                    assert(values_of(self.rules@, category, rule_type, i as int) =~= values_of(self.rules@, category, rule_type, i + 1));
                }
            }
            i = i + 1;
        }
        proof {
            assert(values_of(self.rules@, category, rule_type, self.rules@.len() as int) =~= Seq::<Seq<char>>::empty());
        }
        r
    }

    /// The included path roots.
    pub fn get_included_paths_sync(&self) -> (r: Vec<String>)
        ensures
            r.deep_view() == values_of(self.rules@, RuleCategory::Path, RuleType::Include, 0),
    {
        self.values_for(RuleCategory::Path, RuleType::Include)
    }

    /// The excluded paths.
    pub fn get_excluded_paths_sync(&self) -> (r: Vec<String>)
        ensures
            r.deep_view() == values_of(self.rules@, RuleCategory::Path, RuleType::Exclude, 0),
    {
        self.values_for(RuleCategory::Path, RuleType::Exclude)
    }

    /// The included folder names.
    pub fn get_included_folders_sync(&self) -> (r: Vec<String>)
        ensures
            r.deep_view() == values_of(self.rules@, RuleCategory::Folder, RuleType::Include, 0),
    {
        self.values_for(RuleCategory::Folder, RuleType::Include)
    }

    /// The excluded folder names.
    pub fn get_excluded_folder_sync(&self) -> (r: Vec<String>)
        ensures
            r.deep_view() == values_of(self.rules@, RuleCategory::Folder, RuleType::Exclude, 0),
    {
        self.values_for(RuleCategory::Folder, RuleType::Exclude)
    }

    /// The included extensions.
    pub fn get_included_extensions_sync(&self) -> (r: Vec<String>)
        ensures
            r.deep_view() == values_of(self.rules@, RuleCategory::Extension, RuleType::Include, 0),
    {
        self.values_for(RuleCategory::Extension, RuleType::Include)
    }

    /// The excluded extensions.
    pub fn get_excluded_extensions_sync(&self) -> (r: Vec<String>)
        ensures
            r.deep_view() == values_of(self.rules@, RuleCategory::Extension, RuleType::Exclude, 0),
    {
        self.values_for(RuleCategory::Extension, RuleType::Exclude)
    }

    /// The excluded file names.
    pub fn get_excluded_filenames_sync(&self) -> (r: Vec<String>)
        ensures
            r.deep_view() == values_of(self.rules@, RuleCategory::Filename, RuleType::Exclude, 0),
    {
        self.values_for(RuleCategory::Filename, RuleType::Exclude)
    }
}

} // verus!
