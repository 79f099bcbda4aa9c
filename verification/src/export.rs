//! The files an exporter writes, keyed by file name.
use vstd::prelude::*;
use vstd::string::*;

use crate::name_order::{
    law_name_lt_code_points, lemma_name_lt_irreflexive, lemma_name_lt_transitive, lemma_name_lt_trichotomy, name_less,
    name_lt,
};

verus! {

/// File names strictly ascend along `files`; in particular no name occurs twice.
pub open spec fn names_ascending(files: Seq<(String, String)>) -> bool {
    forall|i: int, j: int|
        0 <= i < j < files.len() ==> name_lt(#[trigger] files[i].0@, #[trigger] files[j].0@)
}

/// Some entry of `files` is named `name`.
pub open spec fn has_file(files: Seq<(String, String)>, name: Seq<char>) -> bool {
    exists|i: int| 0 <= i < files.len() && #[trigger] files[i].0@ == name
}

/// A position of `files` whose entry is named `name`, if there is one.
pub open spec fn file_position(files: Seq<(String, String)>, name: Seq<char>) -> int {
    choose|i: int| 0 <= i < files.len() && #[trigger] files[i].0@ == name
}

/// The content that `files` holds for each of its file names.
pub open spec fn files_map(files: Seq<(String, String)>) -> Map<Seq<char>, Seq<char>> {
    Map::new(
        |name: Seq<char>| has_file(files, name),
        |name: Seq<char>| files[file_position(files, name)].1@,
    )
}

/// The entry at `i` of an ascending list is what the map holds for its name.
pub proof fn lemma_files_map_entry(files: Seq<(String, String)>, i: int)
    requires
        names_ascending(files),
        0 <= i < files.len(),
    ensures
        files_map(files).contains_key(files[i].0@),
        files_map(files)[files[i].0@] == files[i].1@,
{
    let name = files[i].0@;
    assert(has_file(files, name));
    let j = file_position(files, name);
    if j < i {
        assert(name_lt(files[j].0@, files[i].0@));
        lemma_name_lt_irreflexive(name);
    } else if i < j {
        assert(name_lt(files[i].0@, files[j].0@));
        lemma_name_lt_irreflexive(name);
    }
    assert(files_map(files)[name] == files[j].1@);
}

/// File content keyed by file name.
///
/// The files are kept in ascending order of their names, the order in which a
/// `BTreeMap<String, String>` would list them.
#[derive(Debug)]
pub struct ExportFiles {
    content_per_file: Vec<(String, String)>,
}

impl View for ExportFiles {
    type V = Map<Seq<char>, Seq<char>>;

    /// The content of each file, by file name.
    closed spec fn view(&self) -> Map<Seq<char>, Seq<char>> {
        files_map(self.content_per_file@)
    }
}

impl ExportFiles {
    #[verifier::type_invariant]
    spec fn names_ascend(self) -> bool {
        names_ascending(self.content_per_file@)
    }

    /// Creates a new instance of `ExportFiles`.
    pub fn new() -> (files: Self)
        ensures
            files@ == Map::<Seq<char>, Seq<char>>::empty(),
    {
        let files = ExportFiles { content_per_file: Vec::new() };
        assert(files@ =~= Map::<Seq<char>, Seq<char>>::empty());
        files
    }

    /// The files, each name with its content, in ascending order of names.
    pub fn files(&self) -> (files: &Vec<(String, String)>)
        ensures
            names_ascending(files@),
            files_map(files@) == self@,
    {
        proof {
            use_type_invariant(self);
        }
        &self.content_per_file
    }

    /// The content of the file `name`, if there is one.
    pub fn get(&self, name: &str) -> (content: Option<&String>)
        ensures
            match content {
                Some(c) => self@.contains_key(name@) && c@ == self@[name@],
                None => !self@.contains_key(name@),
            },
    {
        proof {
            use_type_invariant(self);
        }
        let files = &self.content_per_file;
        let pos = search(files, name);
        if pos < files.len() && !name_less(name, files[pos].0.as_str()) {
            proof {
                lemma_name_lt_trichotomy(files@[pos as int].0@, name@);
                lemma_files_map_entry(files@, pos as int);
            }
            Some(&files[pos].1)
        } else {
            proof {
                lemma_absent_after_search(files@, name@, pos as int);
            }
            None
        }
    }

    /// Sets the content of the file `name`, and returns the content it had.
    pub fn insert(&mut self, name: String, content: String) -> (previous: Option<String>)
        ensures
            final(self)@ == old(self)@.insert(name@, content@),
            match previous {
                Some(p) => old(self)@.contains_key(name@) && p@ == old(self)@[name@],
                None => !old(self)@.contains_key(name@),
            },
    {
        proof {
            use_type_invariant(&*self);
        }
        let mut files: Vec<(String, String)> = Vec::new();
        std::mem::swap(&mut files, &mut self.content_per_file);
        let ghost before = files@;
        let pos = search(&files, name.as_str());
        let found = pos < files.len() && !name_less(name.as_str(), files[pos].0.as_str());
        let previous;
        if found {
            proof {
                lemma_name_lt_trichotomy(before[pos as int].0@, name@);
                lemma_files_map_entry(before, pos as int);
            }
            let (key, old_content) = files.remove(pos);
            files.insert(pos, (key, content));
            proof {
                assert(files@ =~= before.update(pos as int, (before[pos as int].0, content)));
                lemma_update_content(before, pos as int, content);
            }
            previous = Some(old_content);
        } else {
            proof {
                lemma_absent_after_search(before, name@, pos as int);
            }
            files.insert(pos, (name, content));
            proof {
                lemma_insert_new_file(before, pos as int, name, content);
            }
            previous = None;
        }
        self.content_per_file = files;
        previous
    }

    /// Sets the constants file content
    pub fn set_constants(&mut self, s: String)
        ensures
            final(self)@ == old(self)@.insert("constants.ts"@, s@),
    {
        self.insert(String::from_str("constants.ts"), s);
    }

    /// Sets the types file content
    pub fn set_types(&mut self, s: String)
        ensures
            final(self)@ == old(self)@.insert("types.ts"@, s@),
    {
        self.insert(String::from_str("types.ts"), s);
    }

    /// Sets the commands file content
    pub fn set_commands(&mut self, s: String)
        ensures
            final(self)@ == old(self)@.insert("commands.ts"@, s@),
    {
        self.insert(String::from_str("commands.ts"), s);
    }

    /// Sets the events file content
    pub fn set_events(&mut self, s: String)
        ensures
            final(self)@ == old(self)@.insert("events.ts"@, s@),
    {
        self.insert(String::from_str("events.ts"), s);
    }

    /// Sets the globals file content
    pub fn set_globals(&mut self, s: String)
        ensures
            final(self)@ == old(self)@.insert("globals.ts"@, s@),
    {
        self.insert(String::from_str("globals.ts"), s);
    }
}

impl Clone for ExportFiles {
    /// The same files with the same contents.
    fn clone(&self) -> (files: Self)
        ensures
            files@ == self@,
    {
        proof {
            use_type_invariant(self);
        }
        let mut copy: Vec<(String, String)> = Vec::new();
        let n = self.content_per_file.len();
        for i in 0..n
            invariant
                n == self.content_per_file@.len(),
                copy@.len() == i,
                forall|j: int|
                    0 <= j < i ==> #[trigger] copy@[j] == self.content_per_file@[j],
        {
            let entry = &self.content_per_file[i];
            copy.push((entry.0.clone(), entry.1.clone()));
        }
        assert(copy@ =~= self.content_per_file@);
        ExportFiles { content_per_file: copy }
    }
}

impl Default for ExportFiles {
    /// No files.
    fn default() -> (files: Self)
        ensures
            files@ == Map::<Seq<char>, Seq<char>>::empty(),
    {
        ExportFiles::new()
    }
}

/// The five setters write five different files, so none of them disturbs
/// what another one wrote.
pub proof fn law_setter_files_distinct()
    ensures
        "constants.ts"@ != "types.ts"@,
        "constants.ts"@ != "commands.ts"@,
        "constants.ts"@ != "events.ts"@,
        "constants.ts"@ != "globals.ts"@,
        "types.ts"@ != "commands.ts"@,
        "types.ts"@ != "events.ts"@,
        "types.ts"@ != "globals.ts"@,
        "commands.ts"@ != "events.ts"@,
        "commands.ts"@ != "globals.ts"@,
        "events.ts"@ != "globals.ts"@,
{
    reveal_strlit("constants.ts");
    reveal_strlit("types.ts");
    reveal_strlit("commands.ts");
    reveal_strlit("events.ts");
    reveal_strlit("globals.ts");
    assert("constants.ts"@[0] != "types.ts"@[0]);
    assert("constants.ts"@[2] != "commands.ts"@[2]);
    assert("constants.ts"@[0] != "events.ts"@[0]);
    assert("constants.ts"@[0] != "globals.ts"@[0]);
    assert("types.ts"@[0] != "commands.ts"@[0]);
    assert("types.ts"@[0] != "events.ts"@[0]);
    assert("types.ts"@[0] != "globals.ts"@[0]);
    assert("commands.ts"@[0] != "events.ts"@[0]);
    assert("commands.ts"@[0] != "globals.ts"@[0]);
    assert("events.ts"@[0] != "globals.ts"@[0]);
}

/// Reading a file back after setting it gives what was set; every other file
/// keeps its content, or stays absent.
pub proof fn law_read_back(
    before: ExportFiles,
    after: ExportFiles,
    name: Seq<char>,
    content: Seq<char>,
    other: Seq<char>,
)
    requires
        after@ == before@.insert(name, content),
    ensures
        after@.contains_key(name),
        after@[name] == content,
        other != name ==> after@.contains_key(other) == before@.contains_key(other),
        other != name && before@.contains_key(other) ==> after@[other] == before@[other],
{
}

/// Setting a file twice leaves what the second write wrote, as if the first
/// had not happened.
pub proof fn law_last_write_wins(
    before: ExportFiles,
    between: ExportFiles,
    after: ExportFiles,
    name: Seq<char>,
    first: Seq<char>,
    second: Seq<char>,
)
    requires
        between@ == before@.insert(name, first),
        after@ == between@.insert(name, second),
    ensures
        after@ == before@.insert(name, second),
{
    assert(before@.insert(name, first).insert(name, second) =~= before@.insert(name, second));
}

/// Files listed in ascending name order come in the order of `String`: of two
/// listed names, at the first position where they differ the earlier one has
/// the character with the smaller code point, or it is a proper prefix of the
/// later one.
pub proof fn law_files_in_string_order(files: Seq<(String, String)>, i: int, j: int)
    requires
        names_ascending(files),
        0 <= i < j < files.len(),
    ensures
        ({
            let a = files[i].0@;
            let b = files[j].0@;
            (exists|k: int|
                0 <= k < a.len() && k < b.len() && #[trigger] a.take(k) == b.take(k) && (a[k] as int)
                    < (b[k] as int)) || (a.len() < b.len() && b.take(a.len() as int) == a)
        }),
{
    assert(name_lt(files[i].0@, files[j].0@));
    law_name_lt_code_points(files[i].0@, files[j].0@);
}

/// The first position whose name does not come before `name`.
fn search(files: &Vec<(String, String)>, name: &str) -> (pos: usize)
    ensures
        pos <= files@.len(),
        forall|j: int| 0 <= j < pos ==> name_lt(#[trigger] files@[j].0@, name@),
        pos < files@.len() ==> !name_lt(files@[pos as int].0@, name@),
{
    let mut pos: usize = 0;
    while pos < files.len()
        invariant
            pos <= files@.len(),
            forall|j: int| 0 <= j < pos ==> name_lt(#[trigger] files@[j].0@, name@),
        decreases files@.len() - pos,
    {
        if !name_less(files[pos].0.as_str(), name) {
            return pos;
        }
        pos = pos + 1;
    }
    pos
}

/// Where the search stopped short of `name`, no entry of an ascending list
/// is named `name`.
proof fn lemma_absent_after_search(files: Seq<(String, String)>, name: Seq<char>, pos: int)
    requires
        names_ascending(files),
        0 <= pos <= files.len(),
        forall|j: int| 0 <= j < pos ==> name_lt(#[trigger] files[j].0@, name),
        pos < files.len() ==> !name_lt(files[pos].0@, name) && name_lt(name, files[pos].0@),
    ensures
        !has_file(files, name),
        forall|j: int| pos <= j < files.len() ==> name_lt(name, #[trigger] files[j].0@),
{
    assert forall|j: int| pos <= j < files.len() implies name_lt(name, #[trigger] files[j].0@) by {
        if j > pos {
            assert(name_lt(files[pos].0@, files[j].0@));
            lemma_name_lt_transitive(name, files[pos].0@, files[j].0@);
        }
    }
    if has_file(files, name) {
        let j = choose|j: int| 0 <= j < files.len() && files[j].0@ == name;
        lemma_name_lt_irreflexive(name);
    }
}

/// Replacing the content of an entry keeps the names and updates the map.
proof fn lemma_update_content(files: Seq<(String, String)>, pos: int, content: String)
    requires
        names_ascending(files),
        0 <= pos < files.len(),
    ensures
        names_ascending(files.update(pos, (files[pos].0, content))),
        files_map(files.update(pos, (files[pos].0, content))) == files_map(files).insert(
            files[pos].0@,
            content@,
        ),
{
    let after = files.update(pos, (files[pos].0, content));
    assert(names_ascending(after)) by {
        assert forall|i: int, j: int| 0 <= i < j < after.len() implies name_lt(
            #[trigger] after[i].0@,
            #[trigger] after[j].0@,
        ) by {
            assert(name_lt(files[i].0@, files[j].0@));
        }
    }
    let expected = files_map(files).insert(files[pos].0@, content@);
    assert forall|name: Seq<char>| has_file(after, name) <==> expected.contains_key(name) by {
        if has_file(after, name) {
            let j = choose|j: int| 0 <= j < after.len() && after[j].0@ == name;
            assert(files[j].0@ == name);
        }
        if has_file(files, name) {
            let j = choose|j: int| 0 <= j < files.len() && files[j].0@ == name;
            assert(after[j].0@ == name);
        }
        if name == files[pos].0@ {
            assert(after[pos].0@ == name);
        }
    }
    assert forall|name: Seq<char>| #[trigger] expected.contains_key(name) implies files_map(
        after,
    )[name] == expected[name] by {
        let j = if name == files[pos].0@ {
            pos
        } else {
            file_position(files, name)
        };
        assert(after[j].0@ == name);
        lemma_files_map_entry(after, j);
        if j != pos {
            lemma_files_map_entry(files, j);
        }
    }
    assert(files_map(after) =~= expected);
}

/// Inserting a new name where the search stopped keeps the names ascending
/// and adds the name to the map.
proof fn lemma_insert_new_file(files: Seq<(String, String)>, pos: int, name: String, content: String)
    requires
        names_ascending(files),
        0 <= pos <= files.len(),
        !has_file(files, name@),
        forall|j: int| 0 <= j < pos ==> name_lt(#[trigger] files[j].0@, name@),
        forall|j: int| pos <= j < files.len() ==> name_lt(name@, #[trigger] files[j].0@),
    ensures
        names_ascending(files.insert(pos, (name, content))),
        files_map(files.insert(pos, (name, content))) == files_map(files).insert(
            name@,
            content@,
        ),
{
    let after = files.insert(pos, (name, content));
    assert forall|j: int| 0 <= j < after.len() implies #[trigger] after[j] == (if j < pos {
        files[j]
    } else if j == pos {
        (name, content)
    } else {
        files[j - 1]
    }) by {}
    assert(names_ascending(after)) by {
        assert forall|i: int, j: int| 0 <= i < j < after.len() implies name_lt(
            #[trigger] after[i].0@,
            #[trigger] after[j].0@,
        ) by {
            if i < pos && j > pos {
                lemma_name_lt_transitive(files[i].0@, name@, files[j - 1].0@);
            } else if i < pos && j < pos {
                assert(name_lt(files[i].0@, files[j].0@));
            } else if i > pos {
                assert(name_lt(files[i - 1].0@, files[j - 1].0@));
            }
        }
    }
    let expected = files_map(files).insert(name@, content@);
    assert forall|k: Seq<char>| has_file(after, k) <==> expected.contains_key(k) by {
        if has_file(after, k) {
            let j = choose|j: int| 0 <= j < after.len() && after[j].0@ == k;
            if j < pos {
                assert(files[j].0@ == k);
            } else if j > pos {
                assert(files[j - 1].0@ == k);
            }
        }
        if has_file(files, k) {
            let j = choose|j: int| 0 <= j < files.len() && files[j].0@ == k;
            if j < pos {
                assert(after[j].0@ == k);
            } else {
                assert(after[j + 1].0@ == k);
            }
        }
        if k == name@ {
            assert(after[pos].0@ == k);
        }
    }
    assert forall|k: Seq<char>| #[trigger] expected.contains_key(k) implies files_map(after)[k]
        == expected[k] by {
        if k == name@ {
            lemma_files_map_entry(after, pos);
        } else {
            assert(has_file(files, k));
            let j = file_position(files, k);
            lemma_files_map_entry(files, j);
            if j < pos {
                assert(after[j] == files[j]);
                lemma_files_map_entry(after, j);
            } else {
                assert(after[j + 1] == files[j]);
                lemma_files_map_entry(after, j + 1);
            }
        }
    }
    assert(files_map(after) =~= expected);
}

} // verus!
