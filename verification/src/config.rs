//! The configuration model: one default entry plus per-directory overrides.

use vstd::prelude::*;

use crate::table::FieldValue;
use crate::table::ListItem;
use crate::table::TopValue;
use crate::table::assoc_get;
use crate::table::assoc_lookup;

verus! {

/// One bag of build settings, as read from one section of the configuration
/// table.  Absent fields degrade to per-field defaults: the stock compiler
/// path for `compiler`, an empty list for every list field, `None` for
/// `gitignore`.
///
/// `exclude_dirs` and `gitignore` are carried as configured surface but
/// consumed by no traversal rule; only `include_dirs` gates the walk, and
/// only at the root level.
pub struct ConfigEntry {
    pub compiler: String,
    pub includes: Vec<String>,
    pub flags: Vec<String>,
    pub defines: Vec<String>,
    pub filetypes: Vec<String>,
    pub include_dirs: Vec<String>,
    pub exclude_dirs: Vec<String>,
    pub gitignore: Option<bool>,
}

/// The mathematical value of a `ConfigEntry`: every string as a sequence of
/// characters.
#[verifier::ext_equal]
pub struct EntryModel {
    pub compiler: Seq<char>,
    pub includes: Seq<Seq<char>>,
    pub flags: Seq<Seq<char>>,
    pub defines: Seq<Seq<char>>,
    pub filetypes: Seq<Seq<char>>,
    pub include_dirs: Seq<Seq<char>>,
    pub exclude_dirs: Seq<Seq<char>>,
    pub gitignore: Option<bool>,
}

impl View for ConfigEntry {
    type V = EntryModel;

    open spec fn view(&self) -> EntryModel {
        EntryModel {
            compiler: self.compiler@,
            includes: self.includes.deep_view(),
            flags: self.flags.deep_view(),
            defines: self.defines.deep_view(),
            filetypes: self.filetypes.deep_view(),
            include_dirs: self.include_dirs.deep_view(),
            exclude_dirs: self.exclude_dirs.deep_view(),
            gitignore: self.gitignore,
        }
    }
}

/// The entry that applies when a field, a section or the whole `general`
/// section is absent.
pub open spec fn default_entry_model() -> EntryModel {
    EntryModel {
        compiler: ("/usr/bin/cc")@,
        includes: Seq::empty(),
        flags: Seq::empty(),
        defines: Seq::empty(),
        filetypes: Seq::empty(),
        include_dirs: Seq::empty(),
        exclude_dirs: Seq::empty(),
        gitignore: None,
    }
}

impl ConfigEntry {
    /// The entry of all defaults: stock compiler, empty lists, no
    /// version-control-ignore flag.
    pub fn stock() -> (r: ConfigEntry)
        ensures
            r@ == default_entry_model(),
    {
        let r = ConfigEntry {
            compiler: "/usr/bin/cc".to_owned(),
            includes: Vec::new(),
            flags: Vec::new(),
            defines: Vec::new(),
            filetypes: Vec::new(),
            include_dirs: Vec::new(),
            exclude_dirs: Vec::new(),
            gitignore: None,
        };
        proof {
            assert(r@ =~= default_entry_model());
        }
        r
    }
}

/// What a list element contributes: its text, or the empty string for a
/// value of any other type.
pub open spec fn text_of_item(it: ListItem) -> Seq<char> {
    match it {
        ListItem::Text(s) => s@,
        ListItem::Other => Seq::empty(),
    }
}

/// The compiler configured in a section: the `compiler` key's string, else
/// the stock compiler path.
pub open spec fn compiler_field_model(fields: Seq<(String, FieldValue)>) -> Seq<char> {
    match assoc_lookup(fields, ("compiler")@) {
        Some(FieldValue::Text(s)) => s@,
        _ => ("/usr/bin/cc")@,
    }
}

/// The list configured under `key` in a section: its elements' texts in
/// order, or the empty list when the key is absent or not bound to a list.
pub open spec fn list_field_model(fields: Seq<(String, FieldValue)>, key: Seq<char>) -> Seq<
    Seq<char>,
> {
    match assoc_lookup(fields, key) {
        Some(FieldValue::List(items)) => items@.map_values(|it: ListItem| text_of_item(it)),
        _ => Seq::empty(),
    }
}

/// The `gitignore` flag of a section: the boolean bound to the key, if any.
pub open spec fn gitignore_field_model(fields: Seq<(String, FieldValue)>) -> Option<bool> {
    match assoc_lookup(fields, ("gitignore")@) {
        Some(FieldValue::Truth(b)) => Some(b),
        _ => None,
    }
}

/// The entry a top-level table value describes.  A value that is not a
/// section supplies no fields, so every field takes its default.
pub open spec fn entry_of_value(v: TopValue) -> EntryModel {
    match v {
        TopValue::Section(fields) => EntryModel {
            compiler: compiler_field_model(fields@),
            includes: list_field_model(fields@, ("includes")@),
            flags: list_field_model(fields@, ("flags")@),
            defines: list_field_model(fields@, ("defines")@),
            filetypes: list_field_model(fields@, ("filetypes")@),
            include_dirs: list_field_model(fields@, ("include_dirs")@),
            exclude_dirs: list_field_model(fields@, ("exclude_dirs")@),
            gitignore: gitignore_field_model(fields@),
        },
        TopValue::Other => default_entry_model(),
    }
}

/// The compiler of a section, executable form.
fn compiler_field(fields: &Vec<(String, FieldValue)>) -> (r: String)
    ensures
        r@ == compiler_field_model(fields@),
{
    match assoc_get(fields, "compiler") {
        Some(FieldValue::Text(s)) => s.clone(),
        _ => "/usr/bin/cc".to_owned(),
    }
}

/// The list of a section under `key`, executable form.
fn list_field(fields: &Vec<(String, FieldValue)>, key: &str) -> (r: Vec<String>)
    ensures
        r.deep_view() == list_field_model(fields@, key@),
{
    match assoc_get(fields, key) {
        Some(FieldValue::List(items)) => {
            let mut r: Vec<String> = Vec::new();
            let ghost texts = items@.map_values(|it: ListItem| text_of_item(it));
            let mut i: usize = 0;
            while i < items.len()
                invariant
                    i <= items@.len(),
                    texts == items@.map_values(|it: ListItem| text_of_item(it)),
                    r.deep_view() == texts.take(i as int),
                decreases items@.len() - i,
            {
                let s = match &items[i] {
                    ListItem::Text(s) => s.clone(),
                    ListItem::Other => String::new(),
                };
                proof {
                    assert(s@ == text_of_item(items@[i as int]));
                }
                let ghost r0 = r@;
                let ghost d0 = r.deep_view();
                r.push(s);
                i = i + 1;
                proof {
                    assert(d0.len() == r0.len());
                    assert(r0.len() == i - 1);
                    assert forall|j: int| 0 <= j < i as int implies r.deep_view()[j] == texts[j] by {
                        assert(r@ == r0.push(s));
                        if j < i - 1 {
                            assert(r@[j] == r0[j]);
                            assert(d0[j] == texts.take((i - 1) as int)[j]);
                        } else {
                            assert(r0.push(s)[r0.len() as int] == s);
                            assert(r@[j] == s);
                        }
                    }
                    assert(r.deep_view() =~= texts.take(i as int));
                }
            }
            proof {
                assert(texts.take(items@.len() as int) =~= texts);
            }
            r
        },
        _ => {
            let r: Vec<String> = Vec::new();
            proof {
                assert(r.deep_view() =~= Seq::<Seq<char>>::empty());
            }
            r
        },
    }
}

/// The `gitignore` flag of a section, executable form.
fn gitignore_field(fields: &Vec<(String, FieldValue)>) -> (r: Option<bool>)
    ensures
        r == gitignore_field_model(fields@),
{
    match assoc_get(fields, "gitignore") {
        Some(FieldValue::Truth(b)) => Some(*b),
        _ => None,
    }
}

/// Builds the entry one top-level table value describes.  Every absent or
/// differently-typed field degrades to its default; nothing fails.
pub fn entry_from_value(v: &TopValue) -> (e: ConfigEntry)
    ensures
        e@ == entry_of_value(*v),
{
    match v {
        TopValue::Section(fields) => {
            let e = ConfigEntry {
                compiler: compiler_field(fields),
                includes: list_field(fields, "includes"),
                flags: list_field(fields, "flags"),
                defines: list_field(fields, "defines"),
                filetypes: list_field(fields, "filetypes"),
                include_dirs: list_field(fields, "include_dirs"),
                exclude_dirs: list_field(fields, "exclude_dirs"),
                gitignore: gitignore_field(fields),
            };
            proof {
                assert(e@ =~= entry_of_value(*v));
            }
            e
        },
        TopValue::Other => ConfigEntry::stock(),
    }
}

/// The whole configuration: the default entry from the `general` section,
/// plus one override entry per directory name that both stands in the
/// default's `include_dirs` and has a top-level section of its own.
pub struct Config {
    pub general: ConfigEntry,
    pub directories: Vec<(String, ConfigEntry)>,
}

/// The mathematical value of a `Config`.
#[verifier::ext_equal]
pub struct ConfigModel {
    pub general: EntryModel,
    pub directories: Seq<(Seq<char>, EntryModel)>,
}

impl View for Config {
    type V = ConfigModel;

    open spec fn view(&self) -> ConfigModel {
        ConfigModel {
            general: self.general@,
            directories: Seq::new(
                self.directories@.len(),
                |i: int| (self.directories@[i].0@, self.directories@[i].1@),
            ),
        }
    }
}

/// The override entries the first `i` names of `dirs` register: one per name
/// with a top-level table value, in the order of `dirs`, duplicates kept.
pub open spec fn overrides_upto(
    entries: Seq<(String, TopValue)>,
    dirs: Seq<Seq<char>>,
    i: int,
) -> Seq<(Seq<char>, EntryModel)>
    decreases i,
{
    if i <= 0 {
        Seq::empty()
    } else {
        overrides_upto(entries, dirs, i - 1) + (match assoc_lookup(entries, dirs[i - 1]) {
            Some(v) => seq![(dirs[i - 1], entry_of_value(v))],
            None => Seq::empty(),
        })
    }
}

/// The override entries a table registers under a default entry with the
/// given `include_dirs`.
pub open spec fn overrides_of(entries: Seq<(String, TopValue)>, dirs: Seq<Seq<char>>) -> Seq<
    (Seq<char>, EntryModel),
> {
    overrides_upto(entries, dirs, dirs.len() as int)
}

/// The configuration a parsed table describes: never fails, degrades to
/// defaults wherever the table is silent.
pub open spec fn config_of(entries: Seq<(String, TopValue)>) -> ConfigModel {
    let general = match assoc_lookup(entries, ("general")@) {
        Some(v) => entry_of_value(v),
        None => default_entry_model(),
    };
    ConfigModel { general, directories: overrides_of(entries, general.include_dirs) }
}

/// First-match lookup among the override entries.
pub open spec fn override_lookup(dirs: Seq<(Seq<char>, EntryModel)>, name: Seq<char>) -> Option<
    EntryModel,
>
    decreases dirs.len(),
{
    if dirs.len() == 0 {
        None
    } else if dirs[0].0 == name {
        Some(dirs[0].1)
    } else {
        override_lookup(dirs.skip(1), name)
    }
}

/// The entry in force for a directory of the given name: its override if one
/// was registered, else the default entry.
pub open spec fn resolve_model(cfg: ConfigModel, name: Seq<char>) -> EntryModel {
    match override_lookup(cfg.directories, name) {
        Some(e) => e,
        None => cfg.general,
    }
}

impl Config {
    /// Builds the configuration from a parsed table.  This never fails:
    /// absent or malformed parts degrade to type-appropriate defaults.
    pub fn new(table: &crate::table::ConfigTable) -> (r: Config)
        ensures
            r@ == config_of(table.entries@),
    {
        let general = match assoc_get(&table.entries, "general") {
            Some(v) => entry_from_value(v),
            None => ConfigEntry::stock(),
        };
        let ghost dirs = general@.include_dirs;
        let mut directories: Vec<(String, ConfigEntry)> = Vec::new();
        let mut i: usize = 0;
        while i < general.include_dirs.len()
            invariant
                i <= general.include_dirs@.len(),
                dirs == general@.include_dirs,
                dirs.len() == general.include_dirs@.len(),
                forall|j: int|
                    0 <= j < dirs.len() ==> dirs[j] == #[trigger] general.include_dirs@[j]@,
                Seq::new(
                    directories@.len(),
                    |k: int| (directories@[k].0@, directories@[k].1@),
                ) == overrides_upto(table.entries@, dirs, i as int),
            decreases general.include_dirs@.len() - i,
        {
            let d = &general.include_dirs[i];
            let ghost before = directories@;
            match assoc_get(&table.entries, d.as_str()) {
                Some(v) => {
                    directories.push((d.clone(), entry_from_value(v)));
                },
                None => {},
            }
            i = i + 1;
            proof {
                assert(Seq::new(directories@.len(), |k: int| (directories@[k].0@, directories@[k].1@))
                    =~= overrides_upto(table.entries@, dirs, i as int));
            }
        }
        let r = Config { general, directories };
        proof {
            assert(r@ =~= config_of(table.entries@));
        }
        r
    }

    /// Whether a subdirectory of this name, met at the root level, is
    /// traversed at all: root-level gating goes by the default entry's
    /// `include_dirs`.
    pub fn includes_root_dir(&self, name: &str) -> (r: bool)
        ensures
            r == self@.general.include_dirs.contains(name@),
    {
        let v = &self.general.include_dirs;
        let n = name.to_owned();
        let mut i: usize = 0;
        while i < v.len()
            invariant
                i <= v@.len(),
                n@ == name@,
                v == &self.general.include_dirs,
                forall|j: int| 0 <= j < i ==> v.deep_view()[j] != name@,
            decreases v@.len() - i,
        {
            if v[i] == n {
                assert(v.deep_view()[i as int] == name@);
                return true;
            }
            i = i + 1;
        }
        proof {
            assert(forall|j: int| 0 <= j < v.deep_view().len() ==> v.deep_view()[j] != name@);
        }
        false
    }

    /// The entry in force for a directory of the given name.
    pub fn resolve<'a>(&'a self, name: &str) -> (e: &'a ConfigEntry)
        ensures
            e@ == resolve_model(self@, name@),
    {
        let n = name.to_owned();
        let mut i: usize = 0;
        while i < self.directories.len()
            invariant
                i <= self.directories@.len(),
                n@ == name@,
                forall|j: int| 0 <= j < i ==> (#[trigger] self.directories@[j]).0@ != name@,
            decreases self.directories@.len() - i,
        {
            let p = &self.directories[i];
            if p.0 == n {
                proof {
                    lemma_override_lookup_skip(self@.directories, name@, i as int);
                    assert(self@.directories.skip(i as int)[0] == self@.directories[i as int]);
                }
                return &p.1;
            }
            i = i + 1;
        }
        proof {
            lemma_override_lookup_skip(self@.directories, name@, self.directories@.len() as int);
            assert(self@.directories.skip(self.directories@.len() as int).len() == 0);
        }
        &self.general
    }
}

/// A prefix without a match leaves the override lookup to the remainder.
pub proof fn lemma_override_lookup_skip(
    dirs: Seq<(Seq<char>, EntryModel)>,
    name: Seq<char>,
    i: int,
)
    requires
        0 <= i <= dirs.len(),
        forall|j: int| 0 <= j < i ==> (#[trigger] dirs[j]).0 != name,
    ensures
        override_lookup(dirs, name) == override_lookup(dirs.skip(i), name),
    decreases i,
{
    if i > 0 {
        lemma_override_lookup_skip(dirs, name, i - 1);
        assert(dirs.skip(i - 1)[0] == dirs[i - 1]);
        assert(dirs.skip(i - 1).skip(1) =~= dirs.skip(i));
    } else {
        assert(dirs.skip(0) =~= dirs);
    }
}

/// The override lookup of a concatenation answers from the front part when
/// it can, else from the back part.
pub proof fn lemma_override_lookup_concat(
    a: Seq<(Seq<char>, EntryModel)>,
    b: Seq<(Seq<char>, EntryModel)>,
    name: Seq<char>,
)
    ensures
        override_lookup(a + b, name) == (if override_lookup(a, name) is Some {
            override_lookup(a, name)
        } else {
            override_lookup(b, name)
        }),
    decreases a.len(),
{
    if a.len() == 0 {
        assert(a + b =~= b);
    } else {
        assert((a + b).len() > 0);
        assert((a + b)[0] == a[0]);
        assert((a + b).skip(1) =~= a.skip(1) + b);
        lemma_override_lookup_concat(a.skip(1), b, name);
    }
}

/// What the override entries of the first `i` names answer for `name`: the
/// entry of `name`'s own top-level table value when `name` stands among
/// those names and has such a value, and nothing otherwise.
pub proof fn lemma_override_upto(
    entries: Seq<(String, TopValue)>,
    dirs: Seq<Seq<char>>,
    i: int,
    name: Seq<char>,
)
    requires
        0 <= i <= dirs.len(),
    ensures
        override_lookup(overrides_upto(entries, dirs, i), name) == (if dirs.take(i).contains(name)
            && assoc_lookup(entries, name) is Some {
            Some(entry_of_value(assoc_lookup(entries, name)->0))
        } else {
            None::<EntryModel>
        }),
    decreases i,
{
    if i <= 0 {
        assert(!dirs.take(0).contains(name));
    } else {
        lemma_override_upto(entries, dirs, i - 1, name);
        let front = overrides_upto(entries, dirs, i - 1);
        let piece = match assoc_lookup(entries, dirs[i - 1]) {
            Some(v) => seq![(dirs[i - 1], entry_of_value(v))],
            None => Seq::<(Seq<char>, EntryModel)>::empty(),
        };
        lemma_override_lookup_concat(front, piece, name);
        if override_lookup(front, name) is Some {
            let j = choose|j: int| 0 <= j < i - 1 && #[trigger] dirs.take(i - 1)[j] == name;
            assert(dirs.take(i)[j] == name);
            assert(dirs.take(i).contains(name));
        } else {
            if dirs[i - 1] == name && assoc_lookup(entries, name) is Some {
                assert(piece.len() == 1);
                assert(piece[0].0 == name);
                assert(override_lookup(piece, name) == Some(piece[0].1));
                assert(dirs.take(i)[i - 1] == name);
                assert(dirs.take(i).contains(name));
            } else {
                if piece.len() == 1 {
                    assert(assoc_lookup(entries, dirs[i - 1]) is Some);
                    assert(dirs[i - 1] != name);
                    assert(piece[0].0 == dirs[i - 1]);
                    assert(piece.skip(1) =~= Seq::<(Seq<char>, EntryModel)>::empty());
                    assert(override_lookup(piece.skip(1), name) is None);
                }
                assert(override_lookup(piece, name) is None);
                if dirs.take(i).contains(name) && assoc_lookup(entries, name) is Some {
                    let j = choose|j: int| 0 <= j < i && #[trigger] dirs.take(i)[j] == name;
                    assert(dirs[j] == name);
                    if j < i - 1 {
                        assert(dirs.take(i - 1)[j] == name);
                        assert(dirs.take(i - 1).contains(name));
                        assert(false);
                    } else {
                        assert(false);
                    }
                }
            }
        }
    }
}

/// A table lacking a `general` key yields the all-default configuration:
/// the hardcoded default entry, and no override entries.
pub proof fn lemma_no_general_defaults(entries: Seq<(String, TopValue)>)
    requires
        assoc_lookup(entries, ("general")@) is None,
    ensures
        config_of(entries).general == default_entry_model(),
        config_of(entries).directories == Seq::<(Seq<char>, EntryModel)>::empty(),
{
    assert(config_of(entries).general.include_dirs.len() == 0);
}

/// A directory name that stands in the default entry's `include_dirs` and
/// has a top-level table value of its own resolves to that value's entry —
/// not to the default entry — whatever fields the value omits.
pub proof fn lemma_resolve_override(entries: Seq<(String, TopValue)>, name: Seq<char>)
    requires
        config_of(entries).general.include_dirs.contains(name),
        assoc_lookup(entries, name) is Some,
    ensures
        resolve_model(config_of(entries), name) == entry_of_value(assoc_lookup(entries, name)->0),
{
    let dirs = config_of(entries).general.include_dirs;
    assert(dirs.take(dirs.len() as int) =~= dirs);
    lemma_override_upto(entries, dirs, dirs.len() as int, name);
}

/// A name outside the default entry's `include_dirs`, or without a top-level
/// table value of its own, resolves to the default entry.
pub proof fn lemma_resolve_default(entries: Seq<(String, TopValue)>, name: Seq<char>)
    requires
        !config_of(entries).general.include_dirs.contains(name) || assoc_lookup(
            entries,
            name,
        ) is None,
    ensures
        resolve_model(config_of(entries), name) == config_of(entries).general,
{
    let dirs = config_of(entries).general.include_dirs;
    assert(dirs.take(dirs.len() as int) =~= dirs);
    lemma_override_upto(entries, dirs, dirs.len() as int, name);
}

} // verus!
