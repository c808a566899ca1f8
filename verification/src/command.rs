//! Synthesis of one compile-command record from an effective configuration
//! entry and a matched file.

use vstd::prelude::*;

use crate::config::ConfigEntry;
use crate::config::EntryModel;
use crate::text::object_name;
use crate::text::stem_of;

verus! {

/// One compile-command record: the full argument vector the compiler would
/// receive, plus the traversal root and the file's path.  The `output` field
/// records the source path itself, as the tool always has; only the argument
/// vector's `-o` token names the object file.
pub struct CompileCommandRecord {
    pub arguments: Vec<String>,
    pub directory: String,
    pub file: String,
    pub output: String,
}

/// The mathematical value of a record.
#[verifier::ext_equal]
pub struct RecordModel {
    pub arguments: Seq<Seq<char>>,
    pub directory: Seq<char>,
    pub file: Seq<char>,
    pub output: Seq<char>,
}

impl View for CompileCommandRecord {
    type V = RecordModel;

    open spec fn view(&self) -> RecordModel {
        RecordModel {
            arguments: self.arguments.deep_view(),
            directory: self.directory@,
            file: self.file@,
            output: self.output@,
        }
    }
}

impl DeepView for CompileCommandRecord {
    type V = RecordModel;

    open spec fn deep_view(&self) -> RecordModel {
        self.view()
    }
}

/// The argument vector for compiling `file_name` under `entry`: the
/// compiler, every include, every define and every flag in configured order,
/// then `-o`, the object name `<stem>.o`, and the bare file name.
pub open spec fn arguments_model(entry: EntryModel, file_name: Seq<char>) -> Seq<Seq<char>> {
    seq![entry.compiler] + entry.includes + entry.defines + entry.flags + seq![
        ("-o")@,
        stem_of(file_name) + (".o")@,
        file_name,
    ]
}

/// The record for one matched file: the argument vector above, the
/// canonicalized root as `directory`, and the file's path as both `file` and
/// `output`.
pub open spec fn record_model(
    entry: EntryModel,
    root_path: Seq<char>,
    file_path: Seq<char>,
    file_name: Seq<char>,
) -> RecordModel {
    RecordModel {
        arguments: arguments_model(entry, file_name),
        directory: root_path,
        file: file_path,
        output: file_path,
    }
}

/// Appending one element appends its deep view to the vector's deep view.
pub proof fn lemma_push_deep_view<T: DeepView>(a: Seq<T>, b: &Vec<T>, s: T)
    requires
        b@ == a.push(s),
    ensures
        b.deep_view() == Seq::new(a.len(), |i: int| a[i].deep_view()).push(s.deep_view()),
{
    let d0 = Seq::new(a.len(), |i: int| a[i].deep_view());
    assert forall|j: int| 0 <= j < b@.len() implies b.deep_view()[j] == d0.push(s.deep_view())[j] by {
        if j < a.len() {
            assert(b@[j] == a[j]);
        } else {
            assert(b@[j] == s);
        }
    }
    assert(b.deep_view() =~= d0.push(s.deep_view()));
}

/// Appends every string of `src` to `dst`, in order.
fn push_all(dst: &mut Vec<String>, src: &Vec<String>)
    ensures
        final(dst).deep_view() == old(dst).deep_view() + src.deep_view(),
{
    let ghost base = dst.deep_view();
    let mut i: usize = 0;
    while i < src.len()
        invariant
            i <= src@.len(),
            dst.deep_view() == base + src.deep_view().take(i as int),
        decreases src@.len() - i,
    {
        let ghost a = dst@;
        dst.push(src[i].clone());
        proof {
            lemma_push_deep_view(a, dst, src@[i as int]);
            assert(Seq::new(a.len(), |k: int| a[k]@) =~= base + src.deep_view().take(i as int));
            assert((base + src.deep_view().take(i as int)).push(src@[i as int]@) =~= base
                + src.deep_view().take(i as int + 1));
        }
        i = i + 1;
    }
    proof {
        assert(src.deep_view().take(src@.len() as int) =~= src.deep_view());
    }
}

/// Builds the record for one matched file.  The argument order is fixed:
/// compiler, includes, defines, flags, `-o`, object name, file name.
/// Synthesis never touches the filesystem.
pub fn synthesize(entry: &ConfigEntry, root_path: &str, file_path: &str, file_name: &str) -> (r:
    CompileCommandRecord)
    ensures
        r@ == record_model(entry@, root_path@, file_path@, file_name@),
{
    let mut arguments: Vec<String> = Vec::new();
    let ghost e0 = arguments@;
    arguments.push(entry.compiler.clone());
    proof {
        lemma_push_deep_view(e0, &arguments, entry.compiler);
        assert(arguments.deep_view() =~= seq![entry@.compiler]);
    }
    push_all(&mut arguments, &entry.includes);
    push_all(&mut arguments, &entry.defines);
    push_all(&mut arguments, &entry.flags);
    let ghost mid = arguments@;
    arguments.push("-o".to_owned());
    proof {
        lemma_push_deep_view(mid, &arguments, arguments@[arguments@.len() - 1]);
    }
    let ghost mid2 = arguments@;
    arguments.push(object_name(file_name));
    proof {
        lemma_push_deep_view(mid2, &arguments, arguments@[arguments@.len() - 1]);
    }
    let ghost mid3 = arguments@;
    arguments.push(file_name.to_owned());
    proof {
        lemma_push_deep_view(mid3, &arguments, arguments@[arguments@.len() - 1]);
        assert(Seq::new(mid.len(), |i: int| mid[i]@) =~= seq![entry@.compiler] + entry@.includes
            + entry@.defines + entry@.flags);
        assert(arguments.deep_view() =~= arguments_model(entry@, file_name@));
    }
    let r = CompileCommandRecord {
        arguments,
        directory: root_path.to_owned(),
        file: file_path.to_owned(),
        output: file_path.to_owned(),
    };
    proof {
        assert(r@ =~= record_model(entry@, root_path@, file_path@, file_name@));
    }
    r
}

} // verus!
