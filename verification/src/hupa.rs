//! Hupa module is the core of the library.
//!
//! Each hupa can be considered as a backup: it ties a live origin path to
//! a computed backup location and carries the policy that gates its
//! operations.

use vstd::prelude::*;

use crate::error::{Error, ErrorSpec};
use crate::fs_extra::{check_older, copy_all, fs_exists, get_size, move_all, parent_of, remove_all};
use crate::strutil::{chars_lt, join_slash, lemma_chars_lt_total, lemma_join_slash_snoc, str_eq, str_lt};
use crate::vars::{first_unmet, VarsHandler};

verus! {

/// What a backup run did.
#[derive(Clone, Copy, Debug, PartialEq, Eq, Structural)]
pub enum OperationResult {
    /// The origin had changed: the backup tree was rewritten.
    Change,
    /// The origin had not changed: nothing was touched.
    NoChange,
}

/// Mathematical image of a [`Hupa`].
pub struct HupaSpec {
    /// Name of the hupa.
    pub name: Seq<char>,
    /// Description of the hupa.
    pub desc: Seq<char>,
    /// Hierarchical category of the hupa.
    pub category: Seq<Seq<char>>,
    /// Parent directory under which the backup tree is stored.
    pub backup_parent: Seq<char>,
    /// The live path being protected.
    pub origin_path: Seq<char>,
    /// Whether the daemon includes this hupa in its periodic sweep.
    pub autobackup: bool,
    /// Flags that must be enabled before backup or restore proceeds.
    pub needed_vars: Seq<Seq<char>>,
}

impl HupaSpec {
    /// The category joined with `/`.
    pub open spec fn category_str(self) -> Seq<char> {
        join_slash(self.category)
    }

    /// The backup tree of the hupa: the backup parent, the category
    /// components and the name, joined with `/`.
    pub open spec fn backup_dir(self) -> Seq<char> {
        join_slash(seq![self.backup_parent] + self.category + seq![self.name])
    }

    /// Two hupas are the same entity exactly when name and category match.
    pub open spec fn same_entity(self, other: HupaSpec) -> bool {
        self.name == other.name && self.category == other.category
    }

    /// Display order: by joined category, then by name.
    pub open spec fn lt(self, other: HupaSpec) -> bool {
        ||| chars_lt(self.category_str(), other.category_str())
        ||| (self.category_str() == other.category_str() && chars_lt(self.name, other.name))
    }
}

/// Decides whether a hupa's origin counts as changed, from gathered
/// values: the sizes of backup and origin differ, or the freshness
/// comparison found the backup older.
pub fn changed_from(backup_size: u64, origin_size: u64, older: bool) -> (r: bool)
    ensures
        r == (backup_size != origin_size || older),
{
    backup_size != origin_size || older
}

/// Display order taken loosely: `a` need not come strictly before `b`.
pub open spec fn hupa_le(a: HupaSpec, b: HupaSpec) -> bool {
    !b.lt(a)
}

/// Any two hupas compare in display order.
pub proof fn lemma_hupa_le_total(a: HupaSpec, b: HupaSpec)
    ensures
        hupa_le(a, b) || hupa_le(b, a),
{
    lemma_chars_lt_total(a.category_str(), b.category_str());
    lemma_chars_lt_total(a.name, b.name);
}

/// Display order is transitive.
pub proof fn lemma_hupa_le_trans(a: HupaSpec, b: HupaSpec, c: HupaSpec)
    requires
        hupa_le(a, b),
        hupa_le(b, c),
    ensures
        hupa_le(a, c),
{
    let ca = a.category_str();
    let cb = b.category_str();
    let cc = c.category_str();
    lemma_chars_lt_total(ca, cb);
    lemma_chars_lt_total(cb, cc);
    lemma_chars_lt_total(ca, cc);
    lemma_chars_lt_total(a.name, b.name);
    lemma_chars_lt_total(b.name, c.name);
    lemma_chars_lt_total(a.name, c.name);
    if chars_lt(cc, ca) {
        if ca == cb {
        } else if chars_lt(ca, cb) {
            crate::strutil::lemma_chars_lt_trans(cc, ca, cb);
        }
    } else if cc == ca && chars_lt(c.name, a.name) {
        if ca == cb && cb == cc {
            if chars_lt(a.name, b.name) && chars_lt(b.name, c.name) {
                crate::strutil::lemma_chars_lt_trans(a.name, b.name, c.name);
            }
            if chars_lt(c.name, a.name) && chars_lt(a.name, b.name) {
                crate::strutil::lemma_chars_lt_trans(c.name, a.name, b.name);
            }
        }
    }
}

/// Hupa is a class to handle a backup.
///
/// # Arguments
///
/// `name` - Name of the hupa, can be whatever the user wants
///
/// `desc` - A small description of what the hupa is
///
/// `category` - Category of the hupa, e.g. 'os', 'dotfiles', etc...
///
/// `backup_parent` - Parent directory of the hupa, where it will be stored
///
/// `origin_path` - The path of the backed up file or directory
///
/// `autobackup` - Daemon specific variable, enable autobackup
///
/// `needed_vars` - Vars needed to backup or restore this hupa
#[derive(Debug)]
pub struct Hupa {
    name: String,
    desc: String,
    category: Vec<String>,
    backup_parent: String,
    origin_path: String,
    autobackup: bool,
    needed_vars: Vec<String>,
}

impl View for Hupa {
    type V = HupaSpec;

    closed spec fn view(&self) -> HupaSpec {
        HupaSpec {
            name: self.name@,
            desc: self.desc@,
            category: self.category.deep_view(),
            backup_parent: self.backup_parent@,
            origin_path: self.origin_path@,
            autobackup: self.autobackup,
            needed_vars: self.needed_vars.deep_view(),
        }
    }
}

impl DeepView for Hupa {
    type V = HupaSpec;

    open spec fn deep_view(&self) -> HupaSpec {
        self.view()
    }
}

impl Clone for Hupa {
    /// Copies every field.
    fn clone(&self) -> (r: Self)
        ensures
            r@ == self@,
    {
        let r = Hupa {
            name: self.name.clone(),
            desc: self.desc.clone(),
            category: clone_strings(&self.category),
            backup_parent: self.backup_parent.clone(),
            origin_path: self.origin_path.clone(),
            autobackup: self.autobackup,
            needed_vars: clone_strings(&self.needed_vars),
        };
        proof {
            assert(r@ == self@);
        }
        r
    }
}

/// Copies a list of strings.
pub fn clone_strings(v: &Vec<String>) -> (r: Vec<String>)
    ensures
        r.deep_view() == v.deep_view(),
{
    let mut r: Vec<String> = Vec::new();
    let n = v.len();
    let mut i: usize = 0;
    while i < n
        invariant
            i <= n,
            n == v.len(),
            r.deep_view() == v.deep_view().take(i as int),
        decreases n - i,
    {
        let ghost r0 = r;
        let c = v[i].clone();
        r.push(c);
        proof {
            assert(r0.deep_view().len() == r0@.len());
            assert(r@.len() == i + 1);
            assert(r.deep_view().len() == i + 1);
            assert forall|k: int| 0 <= k < i + 1 implies r.deep_view()[k] == v.deep_view().take(
                i + 1,
            )[k] by {
                assert(r.deep_view()[k] == r@[k]@);
                assert(v.deep_view()[k] == v@[k]@);
                if k < i {
                    assert(r@[k] == r0@[k]);
                    assert(r0.deep_view()[k] == r0@[k]@);
                    assert(r0.deep_view()[k] == v.deep_view()[k]);
                } else {
                    assert(r@[k] == c);
                    assert(c@ == v@[i as int]@);
                }
            }
            assert(r.deep_view() =~= v.deep_view().take(i + 1));
        }
        i = i + 1;
    }
    proof {
        assert(v.deep_view().take(n as int) =~= v.deep_view());
    }
    r
}

impl Hupa {
    /// Default constructor.
    #[allow(clippy::too_many_arguments)]
    pub fn new(
        name: String,
        desc: String,
        category: Vec<String>,
        backup_parent: String,
        origin_path: String,
        autobackup: bool,
        needed_vars: Vec<String>,
    ) -> (r: Hupa)
        ensures
            r@ == (HupaSpec {
                name: name@,
                desc: desc@,
                category: category.deep_view(),
                backup_parent: backup_parent@,
                origin_path: origin_path@,
                autobackup: autobackup,
                needed_vars: needed_vars.deep_view(),
            }),
    {
        Hupa { name, desc, category, backup_parent, origin_path, autobackup, needed_vars }
    }

    /// Get name of the hupa.
    pub fn get_name(&self) -> (r: &str)
        ensures
            r@ == self@.name,
    {
        self.name.as_str()
    }

    /// Get description of the hupa.
    pub fn get_desc(&self) -> (r: &str)
        ensures
            r@ == self@.desc,
    {
        self.desc.as_str()
    }

    /// Get category of this hupa.
    pub fn get_category(&self) -> (r: &Vec<String>)
        ensures
            r.deep_view() == self@.category,
    {
        &self.category
    }

    /// Get needed vars.
    pub fn get_needed_vars(&self) -> (r: &Vec<String>)
        ensures
            r.deep_view() == self@.needed_vars,
    {
        &self.needed_vars
    }

    /// Get the default backup parent: the per-user data directory; the
    /// place depends on the environment.
    pub fn get_default_backup_parent() -> (r: Result<String, Error>)
        ensures
            r matches Err(e) ==> e@ is Io,
    {
        match crate::appdir::user_data_root() {
            Ok(p) => Ok(p),
            Err(m) => Err(Error::Io(m)),
        }
    }

    /// Get backup parent path.
    pub fn get_backup_parent(&self) -> (r: &String)
        ensures
            r@ == self@.backup_parent,
    {
        &self.backup_parent
    }

    /// Get origin path of this hupa.
    pub fn get_origin(&self) -> (r: &String)
        ensures
            r@ == self@.origin_path,
    {
        &self.origin_path
    }

    /// Get autobackup state.
    pub fn is_autobackup_enabled(&self) -> (r: bool)
        ensures
            r == self@.autobackup,
    {
        self.autobackup
    }

    /// Get category of this hupa in string format: the components joined
    /// with `/`.
    pub fn get_category_str(&self) -> (r: String)
        ensures
            r@ == self@.category_str(),
    {
        let mut s = String::new();
        let n = self.category.len();
        if n == 0 {
            proof {
                assert(s@ =~= join_slash(self@.category));
            }
            return s;
        }
        s.append(self.category[0].as_str());
        proof {
            assert(self@.category.take(1)[0] == self@.category[0]);
            assert(s@ == join_slash(self@.category.take(1)));
        }
        let mut i: usize = 1;
        while i < n
            invariant
                1 <= i <= n,
                n == self.category.len(),
                s@ == join_slash(self@.category.take(i as int)),
            decreases n - i,
        {
            s.append("/");
            s.append(self.category[i].as_str());
            proof {
                reveal_strlit("/");
                assert("/"@ =~= seq!['/']);
                lemma_join_slash_snoc(self@.category.take(i as int), self@.category[i as int]);
                assert(self@.category.take(i as int).push(self@.category[i as int])
                    =~= self@.category.take(i + 1));
                assert(s@ =~= join_slash(self@.category.take(i + 1)));
            }
            i = i + 1;
        }
        proof {
            assert(self@.category.take(n as int) =~= self@.category);
        }
        s
    }

    /// Return the backup directory of the hupa: the backup parent, the
    /// category components and the name, joined with `/`.
    pub fn backup_dir(&self) -> (r: String)
        ensures
            r@ == self@.backup_dir(),
    {
        let ghost head = seq![self@.backup_parent];
        let mut s = String::new();
        s.append(self.backup_parent.as_str());
        proof {
            assert(join_slash(head) == self@.backup_parent);
            assert(head + self@.category.take(0) =~= head);
            assert(s@ == join_slash(head + self@.category.take(0)));
        }
        let n = self.category.len();
        let mut i: usize = 0;
        while i < n
            invariant
                i <= n,
                n == self.category.len(),
                head == seq![self@.backup_parent],
                s@ == join_slash(head + self@.category.take(i as int)),
            decreases n - i,
        {
            s.append("/");
            s.append(self.category[i].as_str());
            proof {
                reveal_strlit("/");
                assert("/"@ =~= seq!['/']);
                assert((head + self@.category.take(i as int)).len() >= 1);
                lemma_join_slash_snoc(
                    head + self@.category.take(i as int),
                    self@.category[i as int],
                );
                assert((head + self@.category.take(i as int)).push(self@.category[i as int]) =~= head
                    + self@.category.take(i + 1));
                assert(s@ =~= join_slash(head + self@.category.take(i + 1)));
            }
            i = i + 1;
        }
        s.append("/");
        s.append(self.name.as_str());
        proof {
            reveal_strlit("/");
            assert("/"@ =~= seq!['/']);
            assert(self@.category.take(n as int) =~= self@.category);
            lemma_join_slash_snoc(head + self@.category, self@.name);
            assert((head + self@.category).push(self@.name) =~= head + self@.category + seq![
                self@.name,
            ]);
            assert(s@ =~= join_slash(head + self@.category + seq![self@.name]));
        }
        s
    }

    /// Set description of the hupa.
    pub fn set_desc(&mut self, desc: String)
        ensures
            final(self)@ == (HupaSpec { desc: desc@, ..old(self)@ }),
    {
        self.desc = desc;
    }

    /// Set needed vars.
    pub fn set_needed_vars(&mut self, needed_vars: Vec<String>)
        ensures
            final(self)@ == (HupaSpec { needed_vars: needed_vars.deep_view(), ..old(self)@ }),
    {
        self.needed_vars = needed_vars;
    }

    /// Set origin path of the hupa.
    pub fn set_origin_path(&mut self, origin_path: String)
        ensures
            final(self)@ == (HupaSpec { origin_path: origin_path@, ..old(self)@ }),
    {
        self.origin_path = origin_path;
    }

    /// Set autobackup state.
    pub fn set_autobackup(&mut self, autobackup: bool)
        ensures
            final(self)@ == (HupaSpec { autobackup: autobackup, ..old(self)@ }),
    {
        self.autobackup = autobackup;
    }

    /// Set name of the hupa; an existing backup tree moves to the newly
    /// computed backup directory.
    ///
    /// May fail when creating and moving files; the name is committed
    /// either way, as a new call with the same name cannot move the tree
    /// again.
    pub fn set_name(&mut self, name: String) -> (r: Result<(), Error>)
        ensures
            final(self)@ == (HupaSpec { name: name@, ..old(self)@ }),
            r matches Err(e) ==> e@ is Io,
    {
        let old_backup_dir = self.backup_dir();
        self.name = name;
        let new_backup_dir = self.backup_dir();
        if fs_exists(old_backup_dir.as_str()) {
            move_all(old_backup_dir.as_str(), new_backup_dir.as_str())
        } else {
            Ok(())
        }
    }

    /// Set category of the hupa; an existing backup tree moves to the
    /// newly computed backup directory.
    ///
    /// May fail when creating and moving files; the category is committed
    /// either way.
    pub fn set_category(&mut self, category: Vec<String>) -> (r: Result<(), Error>)
        ensures
            final(self)@ == (HupaSpec { category: category.deep_view(), ..old(self)@ }),
            r matches Err(e) ==> e@ is Io,
    {
        let old_backup_dir = self.backup_dir();
        self.category = category;
        let new_backup_dir = self.backup_dir();
        if fs_exists(old_backup_dir.as_str()) {
            move_all(old_backup_dir.as_str(), new_backup_dir.as_str())
        } else {
            Ok(())
        }
    }

    /// Set backup parent of the hupa; an existing backup tree moves to the
    /// newly computed backup directory.
    ///
    /// May fail when creating and moving files; the parent is committed
    /// either way.
    pub fn set_backup_parent(&mut self, backup_parent: String) -> (r: Result<(), Error>)
        ensures
            final(self)@ == (HupaSpec { backup_parent: backup_parent@, ..old(self)@ }),
            r matches Err(e) ==> e@ is Io,
    {
        let old_backup_dir = self.backup_dir();
        self.backup_parent = backup_parent;
        let new_backup_dir = self.backup_dir();
        if fs_exists(old_backup_dir.as_str()) {
            move_all(old_backup_dir.as_str(), new_backup_dir.as_str())
        } else {
            Ok(())
        }
    }

    /// Get the backup size.
    pub fn get_backup_size(&self) -> (r: Result<u64, Error>)
        ensures
            r matches Err(e) ==> e@ is Io,
    {
        let dir = self.backup_dir();
        get_size(dir.as_str())
    }

    /// Get the origin size.
    pub fn get_origin_size(&self) -> (r: Result<u64, Error>)
        ensures
            r matches Err(e) ==> e@ is Io,
    {
        get_size(self.origin_path.as_str())
    }

    /// Check if origin has changed: sizes first, modification times then.
    ///
    /// The rule is [`changed_from`]: this method draws the sizes and the
    /// freshness comparison from the disk and returns what that function
    /// decides of them. When the sizes already differ, the modification
    /// times are not read.
    pub fn has_origin_changed(&self) -> (r: Result<bool, Error>)
        ensures
            r matches Err(e) ==> e@ is Io,
    {
        let backup = self.backup_dir();
        let backup_size = match get_size(backup.as_str()) {
            Ok(s) => s,
            Err(e) => {
                return Err(e);
            }
        };
        let origin_size = match get_size(self.origin_path.as_str()) {
            Ok(s) => s,
            Err(e) => {
                return Err(e);
            }
        };
        if backup_size != origin_size {
            return Ok(changed_from(backup_size, origin_size, false));
        }
        let older = match check_older(self.origin_path.as_str(), backup.as_str()) {
            Ok(b) => b,
            Err(e) => {
                return Err(e);
            }
        };
        Ok(changed_from(backup_size, origin_size, older))
    }

    /// Backup hupa: refuse unless every needed var is enabled, fail when
    /// the origin is missing, do nothing when the origin has not changed,
    /// else rebuild the backup tree from the origin.
    ///
    /// Callers that need another user's rights for the copy raise them
    /// around this call.
    pub fn backup(&self, vars_handler: &VarsHandler) -> (r: Result<OperationResult, Error>)
        ensures
            first_unmet(vars_handler@, self@.needed_vars) matches Some(n) ==> r matches Err(e)
                && e@ == ErrorSpec::MissingRequiredFlag(n),
            first_unmet(vars_handler@, self@.needed_vars) is None ==> match r {
                Ok(_) => true,
                Err(e) => e@ == ErrorSpec::MissingOrigin(self@.origin_path) || e@ is Io,
            },
    {
        match vars_handler.check(&self.needed_vars) {
            Ok(()) => {}
            Err(e) => {
                return Err(e);
            }
        }
        let backup_dir = self.backup_dir();
        if !fs_exists(self.origin_path.as_str()) {
            return Err(Error::MissingOrigin(self.origin_path.clone()));
        }
        let changed = match self.has_origin_changed() {
            Ok(false) => false,
            _ => true,
        };
        if !changed {
            return Ok(OperationResult::NoChange);
        }
        match self.delete_backup() {
            Ok(()) => {}
            Err(e) => {
                return Err(e);
            }
        }
        if let Some(p) = parent_of(backup_dir.as_str()) {
            match crate::fs_extra::create_dir_all(p) {
                Ok(()) => {}
                Err(e) => {
                    return Err(e);
                }
            }
        }
        match copy_all(self.origin_path.as_str(), backup_dir.as_str()) {
            Ok(()) => Ok(OperationResult::Change),
            Err(e) => Err(e),
        }
    }

    /// Restore hupa: refuse unless every needed var is enabled, fail when
    /// no backup tree exists, else rebuild the origin from the backup
    /// tree.
    ///
    /// Callers that need another user's rights for the copy raise them
    /// around this call.
    pub fn restore(&self, vars_handler: &VarsHandler) -> (r: Result<(), Error>)
        ensures
            first_unmet(vars_handler@, self@.needed_vars) matches Some(n) ==> r matches Err(e)
                && e@ == ErrorSpec::MissingRequiredFlag(n),
            first_unmet(vars_handler@, self@.needed_vars) is None ==> match r {
                Ok(_) => true,
                Err(e) => e@ == ErrorSpec::MissingBackup(self@.backup_dir()) || e@ is Io,
            },
    {
        match vars_handler.check(&self.needed_vars) {
            Ok(()) => {}
            Err(e) => {
                return Err(e);
            }
        }
        let backup_dir = self.backup_dir();
        if !fs_exists(backup_dir.as_str()) {
            return Err(Error::MissingBackup(backup_dir));
        }
        match self.delete_origin() {
            Ok(()) => {}
            Err(e) => {
                return Err(e);
            }
        }
        if let Some(p) = parent_of(self.origin_path.as_str()) {
            match crate::fs_extra::create_dir_all(p) {
                Ok(()) => {}
                Err(e) => {
                    return Err(e);
                }
            }
        }
        copy_all(backup_dir.as_str(), self.origin_path.as_str())
    }

    /// Delete backup: removes the backup tree; doing nothing when none
    /// exists is no error.
    pub fn delete_backup(&self) -> (r: Result<(), Error>)
        ensures
            r matches Err(e) ==> e@ is Io,
    {
        let backup_dir = self.backup_dir();
        if fs_exists(backup_dir.as_str()) {
            remove_all(backup_dir.as_str())
        } else {
            Ok(())
        }
    }

    /// Delete origin: removes the origin tree; doing nothing when none
    /// exists is no error.
    pub fn delete_origin(&self) -> (r: Result<(), Error>)
        ensures
            r matches Err(e) ==> e@ is Io,
    {
        if fs_exists(self.origin_path.as_str()) {
            remove_all(self.origin_path.as_str())
        } else {
            Ok(())
        }
    }

    /// Whether this hupa comes before `other` in display order.
    pub fn comes_before(&self, other: &Hupa) -> (r: bool)
        ensures
            r == self@.lt(other@),
    {
        let a = self.get_category_str();
        let b = other.get_category_str();
        if str_lt(a.as_str(), b.as_str()) {
            true
        } else if str_lt(b.as_str(), a.as_str()) {
            false
        } else {
            proof {
                lemma_chars_lt_total(a@, b@);
            }
            str_lt(self.name.as_str(), other.name.as_str())
        }
    }
}

impl PartialEq for Hupa {
    /// Two hupas are equal as entities when name and category match.
    fn eq(&self, other: &Hupa) -> (r: bool) {
        str_eq(self.name.as_str(), other.name.as_str()) && string_lists_eq(
            &self.category,
            &other.category,
        )
    }
}

impl vstd::std_specs::cmp::PartialEqSpecImpl for Hupa {
    open spec fn obeys_eq_spec() -> bool {
        true
    }

    open spec fn eq_spec(&self, other: &Hupa) -> bool {
        self@.same_entity(other@)
    }
}

impl Eq for Hupa {

}

impl PartialOrd for Hupa {
    /// Hupas order by joined category, then by name.
    fn partial_cmp(&self, other: &Hupa) -> (r: Option<core::cmp::Ordering>) {
        let a = self.get_category_str();
        let b = other.get_category_str();
        proof {
            lemma_chars_lt_total(a@, b@);
            lemma_chars_lt_total(self@.name, other@.name);
        }
        if str_lt(a.as_str(), b.as_str()) {
            Some(core::cmp::Ordering::Less)
        } else if str_lt(b.as_str(), a.as_str()) {
            Some(core::cmp::Ordering::Greater)
        } else if str_lt(self.name.as_str(), other.name.as_str()) {
            Some(core::cmp::Ordering::Less)
        } else if str_lt(other.name.as_str(), self.name.as_str()) {
            Some(core::cmp::Ordering::Greater)
        } else {
            Some(core::cmp::Ordering::Equal)
        }
    }
}

impl vstd::std_specs::cmp::PartialOrdSpecImpl for Hupa {
    open spec fn obeys_partial_cmp_spec() -> bool {
        true
    }

    open spec fn partial_cmp_spec(&self, other: &Hupa) -> Option<core::cmp::Ordering> {
        if self@.lt(other@) {
            Some(core::cmp::Ordering::Less)
        } else if other@.lt(self@) {
            Some(core::cmp::Ordering::Greater)
        } else {
            Some(core::cmp::Ordering::Equal)
        }
    }
}

/// Reports whether two lists of strings hold the same texts.
pub fn string_lists_eq(a: &Vec<String>, b: &Vec<String>) -> (r: bool)
    ensures
        r == (a.deep_view() == b.deep_view()),
{
    let n = a.len();
    if n != b.len() {
        proof {
            assert(a.deep_view().len() == n);
            assert(b.deep_view().len() == b.len());
        }
        return false;
    }
    let mut i: usize = 0;
    while i < n
        invariant
            i <= n,
            n == a.len(),
            n == b.len(),
            forall|k: int| 0 <= k < i ==> a.deep_view()[k] == b.deep_view()[k],
        decreases n - i,
    {
        if !str_eq(a[i].as_str(), b[i].as_str()) {
            proof {
                assert(a.deep_view()[i as int] == a@[i as int]@);
                assert(b.deep_view()[i as int] == b@[i as int]@);
            }
            return false;
        }
        i = i + 1;
    }
    proof {
        assert(a.deep_view() =~= b.deep_view());
    }
    true
}

} // verus!
