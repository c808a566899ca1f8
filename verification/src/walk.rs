//! The directory walker: a depth-first traversal of an in-memory directory
//! tree that applies root-level gating, resolves the effective configuration
//! per containing directory, and synthesizes one record per filetype match.
//!
//! The tree is handed in by the caller, which reads the filesystem and
//! canonicalizes the root; entries stand in directory-listing order, and the
//! records come out in exactly that order.

use vstd::prelude::*;

use crate::command::CompileCommandRecord;
use crate::command::RecordModel;
use crate::command::lemma_push_deep_view;
use crate::command::record_model;
use crate::command::synthesize;
use crate::config::Config;
use crate::config::ConfigEntry;
use crate::config::ConfigModel;
use crate::config::EntryModel;
use crate::config::resolve_model;
use crate::text::is_suffix_of;
use crate::text::str_ends_with;

verus! {

/// One entry of the in-memory directory tree.  A file carries its bare name
/// and its path as encountered; a directory carries its bare name and its
/// entries in listing order.
pub enum FsNode {
    File { name: String, path: String },
    Dir { name: String, children: Vec<FsNode> },
}

/// The tree the walk consumes: the root directory's bare name, its
/// canonicalized absolute path, and its entries in listing order.
pub struct FsTree {
    pub root_name: String,
    pub root_path: String,
    pub entries: Vec<FsNode>,
}

/// Accumulates synthesized records in traversal order.  The caller encodes
/// the accumulated list once, after the walk.
pub struct RecordSink {
    pub records: Vec<CompileCommandRecord>,
}

impl RecordSink {
    /// An empty sink.
    pub fn new() -> (r: RecordSink)
        ensures
            r.records@ == Seq::<CompileCommandRecord>::empty(),
    {
        RecordSink { records: Vec::new() }
    }

    /// Appends one record; nothing already emitted moves or changes.
    pub fn emit(&mut self, r: CompileCommandRecord)
        ensures
            final(self).records@ == old(self).records@.push(r),
    {
        self.records.push(r);
    }
}

/// The records of one file against the first `i` configured filetypes: one
/// record per suffix that ends the file name, in filetype order.  A file may
/// match several suffixes and then appears once per match.
pub open spec fn file_records_upto(
    entry: EntryModel,
    filetypes: Seq<Seq<char>>,
    i: int,
    name: Seq<char>,
    path: Seq<char>,
    root: Seq<char>,
) -> Seq<RecordModel>
    decreases i,
{
    if i <= 0 || i > filetypes.len() {
        Seq::empty()
    } else {
        file_records_upto(entry, filetypes, i - 1, name, path, root) + (if is_suffix_of(
            filetypes[i - 1],
            name,
        ) {
            seq![record_model(entry, root, path, name)]
        } else {
            Seq::empty()
        })
    }
}

/// The records of one file against all configured filetypes.
pub open spec fn file_records(
    entry: EntryModel,
    filetypes: Seq<Seq<char>>,
    name: Seq<char>,
    path: Seq<char>,
    root: Seq<char>,
) -> Seq<RecordModel> {
    file_records_upto(entry, filetypes, filetypes.len() as int, name, path, root)
}

/// The records of the first `i` entries of one directory's listing.  A file
/// entry is matched against the default entry's filetypes and synthesized
/// under the configuration resolved for the containing directory's name; a
/// subdirectory is descended into unconditionally below the root, and at the
/// root only when its name stands in the default entry's `include_dirs`.
pub open spec fn walk_records_upto(
    list: Seq<FsNode>,
    i: int,
    at_root: bool,
    dir_name: Seq<char>,
    cfg: ConfigModel,
    root: Seq<char>,
) -> Seq<RecordModel>
    decreases list, i,
{
    if i <= 0 || i > list.len() {
        Seq::empty()
    } else {
        walk_records_upto(list, i - 1, at_root, dir_name, cfg, root) + (match list[i - 1] {
            FsNode::File { name, path } => file_records(
                resolve_model(cfg, dir_name),
                cfg.general.filetypes,
                name@,
                path@,
                root,
            ),
            FsNode::Dir { name, children } => {
                if !at_root || cfg.general.include_dirs.contains(name@) {
                    walk_records_upto(children@, children@.len() as int, false, name@, cfg, root)
                } else {
                    Seq::empty()
                }
            },
        })
    }
}

/// Every record the walk of a tree produces, in traversal order.
pub open spec fn walk_records(tree: FsTree, cfg: ConfigModel) -> Seq<RecordModel> {
    walk_records_upto(
        tree.entries@,
        tree.entries@.len() as int,
        true,
        tree.root_name@,
        cfg,
        tree.root_path@,
    )
}

/// Emits the records of one file: one per configured filetype suffix that
/// ends its name, in filetype order, each synthesized under `entry`.
fn process_file(
    entry: &ConfigEntry,
    filetypes: &Vec<String>,
    name: &str,
    path: &str,
    root_path: &str,
    sink: &mut RecordSink,
)
    ensures
        final(sink).records.deep_view() == old(sink).records.deep_view() + file_records(
            entry@,
            filetypes.deep_view(),
            name@,
            path@,
            root_path@,
        ),
{
    let ghost base = sink.records.deep_view();
    let mut i: usize = 0;
    while i < filetypes.len()
        invariant
            i <= filetypes@.len(),
            sink.records.deep_view() == base + file_records_upto(
                entry@,
                filetypes.deep_view(),
                i as int,
                name@,
                path@,
                root_path@,
            ),
        decreases filetypes@.len() - i,
    {
        let ghost pre = sink.records.deep_view();
        if str_ends_with(name, filetypes[i].as_str()) {
            let r = synthesize(entry, root_path, path, name);
            let ghost a = sink.records@;
            sink.emit(r);
            proof {
                lemma_push_deep_view(a, &sink.records, r);
                assert(Seq::new(a.len(), |k: int| a[k].deep_view()) =~= pre);
                assert(sink.records.deep_view() =~= pre + seq![
                    record_model(entry@, root_path@, path@, name@),
                ]);
            }
        }
        i = i + 1;
        proof {
            assert(filetypes.deep_view()[i - 1] == filetypes@[i - 1]@);
            assert(sink.records.deep_view() =~= base + file_records_upto(
                entry@,
                filetypes.deep_view(),
                i as int,
                name@,
                path@,
                root_path@,
            ));
        }
    }
    proof {
        assert(filetypes.deep_view().len() == filetypes@.len());
    }
}

/// Walks the first-to-last entries of one directory's listing, emitting the
/// records of every file that matches and of every subtree descended into.
fn walk_entries(
    list: &Vec<FsNode>,
    at_root: bool,
    dir_name: &str,
    cfg: &Config,
    root_path: &str,
    sink: &mut RecordSink,
)
    ensures
        final(sink).records.deep_view() == old(sink).records.deep_view() + walk_records_upto(
            list@,
            list@.len() as int,
            at_root,
            dir_name@,
            cfg@,
            root_path@,
        ),
    decreases list@,
{
    let ghost base = sink.records.deep_view();
    let mut i: usize = 0;
    while i < list.len()
        invariant
            i <= list@.len(),
            sink.records.deep_view() == base + walk_records_upto(
                list@,
                i as int,
                at_root,
                dir_name@,
                cfg@,
                root_path@,
            ),
        decreases list@.len() - i,
    {
        let ghost pre = sink.records.deep_view();
        match &list[i] {
            FsNode::File { name, path } => {
                let effective = cfg.resolve(dir_name);
                process_file(
                    effective,
                    &cfg.general.filetypes,
                    name.as_str(),
                    path.as_str(),
                    root_path,
                    sink,
                );
            },
            FsNode::Dir { name, children } => {
                let descend = if at_root {
                    cfg.includes_root_dir(name.as_str())
                } else {
                    true
                };
                if descend {
                    proof {
                        assert(decreases_to!(list@ => list@[i as int]));
                        assert(decreases_to!(list@[i as int] => children));
                        assert(decreases_to!(children => children@));
                    }
                    walk_entries(children, false, name.as_str(), cfg, root_path, sink);
                }
            },
        }
        i = i + 1;
        proof {
            assert(sink.records.deep_view() =~= base + walk_records_upto(
                list@,
                i as int,
                at_root,
                dir_name@,
                cfg@,
                root_path@,
            ));
        }
    }
}

/// Walks a whole tree.  The records appended to the sink are exactly
/// `walk_records(*tree, cfg@)`: a function of the tree and the configuration
/// alone, in listing order — the walk reads nothing else, so two walks of an
/// unchanged tree append identical records.
pub fn visit_dirs(tree: &FsTree, cfg: &Config, sink: &mut RecordSink)
    ensures
        final(sink).records.deep_view() == old(sink).records.deep_view() + walk_records(
            *tree,
            cfg@,
        ),
{
    walk_entries(
        &tree.entries,
        true,
        tree.root_name.as_str(),
        cfg,
        tree.root_path.as_str(),
        sink,
    );
}

/// Root-level gating: a root-level subdirectory whose name is absent from
/// the default entry's `include_dirs` is never descended into — it
/// contributes nothing to the walk.
pub proof fn lemma_root_gating(
    list: Seq<FsNode>,
    i: int,
    dir_name: Seq<char>,
    cfg: ConfigModel,
    root: Seq<char>,
    name: String,
    children: Vec<FsNode>,
)
    requires
        0 < i <= list.len(),
        list[i - 1] == (FsNode::Dir { name, children }),
        !cfg.general.include_dirs.contains(name@),
    ensures
        walk_records_upto(list, i, true, dir_name, cfg, root) == walk_records_upto(
            list,
            i - 1,
            true,
            dir_name,
            cfg,
            root,
        ),
{
    assert(walk_records_upto(list, i - 1, true, dir_name, cfg, root)
        + Seq::<RecordModel>::empty() =~= walk_records_upto(list, i - 1, true, dir_name, cfg, root));
}

/// Below the root there is no gating: every subdirectory is descended into
/// unconditionally, and its records follow those of the entries before it.
pub proof fn lemma_nonroot_descends(
    list: Seq<FsNode>,
    i: int,
    dir_name: Seq<char>,
    cfg: ConfigModel,
    root: Seq<char>,
    name: String,
    children: Vec<FsNode>,
)
    requires
        0 < i <= list.len(),
        list[i - 1] == (FsNode::Dir { name, children }),
    ensures
        walk_records_upto(list, i, false, dir_name, cfg, root) == walk_records_upto(
            list,
            i - 1,
            false,
            dir_name,
            cfg,
            root,
        ) + walk_records_upto(children@, children@.len() as int, false, name@, cfg, root),
{
}

/// Every record of one file is the same synthesized record: one copy per
/// matching suffix.
pub proof fn lemma_file_records_all_equal(
    entry: EntryModel,
    filetypes: Seq<Seq<char>>,
    i: int,
    name: Seq<char>,
    path: Seq<char>,
    root: Seq<char>,
)
    ensures
        forall|k: int|
            0 <= k < file_records_upto(entry, filetypes, i, name, path, root).len()
                ==> #[trigger] file_records_upto(entry, filetypes, i, name, path, root)[k]
                == record_model(entry, root, path, name),
    decreases i,
{
    if 0 < i <= filetypes.len() {
        lemma_file_records_all_equal(entry, filetypes, i - 1, name, path, root);
        let pre = file_records_upto(entry, filetypes, i - 1, name, path, root);
        let piece: Seq<RecordModel> = if is_suffix_of(filetypes[i - 1], name) {
            seq![record_model(entry, root, path, name)]
        } else {
            Seq::empty()
        };
        assert(file_records_upto(entry, filetypes, i, name, path, root) == pre + piece);
        assert forall|k: int| 0 <= k < (pre + piece).len() implies (pre + piece)[k] == record_model(
            entry,
            root,
            path,
            name,
        ) by {
            if k < pre.len() {
                assert((pre + piece)[k] == pre[k]);
            } else {
                assert((pre + piece)[k] == piece[k - pre.len()]);
            }
        }
    }
}

/// Path fields are uniform across a walk: every record carries the
/// canonicalized root as its `directory`, and its `output` repeats its
/// `file` — the source path as encountered, never the object name.
pub proof fn lemma_walk_path_fields(
    list: Seq<FsNode>,
    i: int,
    at_root: bool,
    dir_name: Seq<char>,
    cfg: ConfigModel,
    root: Seq<char>,
)
    ensures
        forall|k: int|
            0 <= k < walk_records_upto(list, i, at_root, dir_name, cfg, root).len()
                ==> (#[trigger] walk_records_upto(list, i, at_root, dir_name, cfg, root)[k]).directory
                == root && walk_records_upto(list, i, at_root, dir_name, cfg, root)[k].output
                == walk_records_upto(list, i, at_root, dir_name, cfg, root)[k].file,
    decreases list, i,
{
    if 0 < i <= list.len() {
        lemma_walk_path_fields(list, i - 1, at_root, dir_name, cfg, root);
        let pre = walk_records_upto(list, i - 1, at_root, dir_name, cfg, root);
        let piece = match list[i - 1] {
            FsNode::File { name, path } => file_records(
                resolve_model(cfg, dir_name),
                cfg.general.filetypes,
                name@,
                path@,
                root,
            ),
            FsNode::Dir { name, children } => {
                if !at_root || cfg.general.include_dirs.contains(name@) {
                    walk_records_upto(children@, children@.len() as int, false, name@, cfg, root)
                } else {
                    Seq::empty()
                }
            },
        };
        match list[i - 1] {
            FsNode::File { name, path } => {
                lemma_file_records_all_equal(
                    resolve_model(cfg, dir_name),
                    cfg.general.filetypes,
                    cfg.general.filetypes.len() as int,
                    name@,
                    path@,
                    root,
                );
            },
            FsNode::Dir { name, children } => {
                if !at_root || cfg.general.include_dirs.contains(name@) {
                    lemma_walk_path_fields(
                        children@,
                        children@.len() as int,
                        false,
                        name@,
                        cfg,
                        root,
                    );
                }
            },
        }
        assert(walk_records_upto(list, i, at_root, dir_name, cfg, root) == pre + piece);
        assert forall|k: int| 0 <= k < (pre + piece).len() implies (pre + piece)[k].directory
            == root && (pre + piece)[k].output == (pre + piece)[k].file by {
            if k < pre.len() {
                assert((pre + piece)[k] == pre[k]);
            } else {
                assert((pre + piece)[k] == piece[k - pre.len()]);
            }
        }
    }
}

/// At the tree level: every record of a walk carries the tree's
/// canonicalized root as `directory`, and repeats its `file` in `output`.
pub proof fn lemma_walk_records_path_fields(tree: FsTree, cfg: ConfigModel)
    ensures
        forall|k: int|
            0 <= k < walk_records(tree, cfg).len() ==> (#[trigger] walk_records(
                tree,
                cfg,
            )[k]).directory == tree.root_path@ && walk_records(tree, cfg)[k].output == walk_records(
                tree,
                cfg,
            )[k].file,
{
    lemma_walk_path_fields(
        tree.entries@,
        tree.entries@.len() as int,
        true,
        tree.root_name@,
        cfg,
        tree.root_path@,
    );
}

/// The walk is deterministic: its records are a function of the tree and
/// the configuration alone, so two walks of an unchanged tree under an
/// unchanged configuration yield the same records in the same order.
pub proof fn lemma_walk_deterministic(
    tree: FsTree,
    cfg: ConfigModel,
    first: Seq<RecordModel>,
    second: Seq<RecordModel>,
)
    requires
        first == walk_records(tree, cfg),
        second == walk_records(tree, cfg),
    ensures
        first == second,
{
}

} // verus!
