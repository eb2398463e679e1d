//! The files that an editor reads of a project: the project description,
//! the class path, the settings, and the entries of the ignore file.

use crate::string_map::StringMap;
use crate::text::{contains, ends_with, occurs_in, views};
use vstd::prelude::*;
use vstd::string::*;

verus! {

/// The project description up to the project's name.
pub open spec fn project_head() -> Seq<char> {
    "<?xml version=\"1.0\" encoding=\"UTF-8\"?>\n<projectDescription>\n\t<name>"@
}

/// The project description after the project's name.
pub open spec fn project_tail() -> Seq<char> {
    "</name>\n\t<comment></comment>\n\t<projects>\n\t</projects>\n\t<buildSpec>\n\t\t<buildCommand>\n\t\t\t<name>org.eclipse.jdt.core.javabuilder</name>\n\t\t\t<arguments>\n\t\t\t</arguments>\n\t\t</buildCommand>\n\t</buildSpec>\n\t<natures>\n\t\t<nature>org.eclipse.jdt.core.javanature</nature>\n\t</natures>\n</projectDescription>\n"@
}

/// The class path file up to the libraries.
pub open spec fn classpath_head() -> Seq<char> {
    "<?xml version=\"1.0\" encoding=\"UTF-8\"?>\n<classpath>\n\t<classpathentry kind=\"src\" path=\"src/main/java\"/>\n\t<classpathentry kind=\"src\" output=\"target/test-classes\" path=\"src/test/java\">\n\t\t<attributes>\n\t\t\t<attribute name=\"test\" value=\"true\"/>\n\t\t</attributes>\n\t</classpathentry>\n\t<classpathentry kind=\"con\" path=\"org.eclipse.jdt.launching.JRE_CONTAINER\"/>\n\t<classpathentry kind=\"output\" path=\"target/classes\"/>\n"@
}

/// The class path file after the libraries.
pub open spec fn classpath_tail() -> Seq<char> {
    "</classpath>\n"@
}

/// The entry of a library.
pub open spec fn library_entry(path: Seq<char>) -> Seq<char> {
    "\t<classpathentry kind=\"lib\" path=\""@ + path + "\"/>\n"@
}

/// The entry of a library that only tests use.
pub open spec fn test_library_entry(path: Seq<char>) -> Seq<char> {
    "\t<classpathentry kind=\"lib\" path=\""@ + path
        + "\">\n\t\t<attributes>\n\t\t\t<attribute name=\"test\" value=\"true\"/>\n\t\t</attributes>\n\t</classpathentry>\n"@
}

/// The entry of a library, for tests only or not.
pub open spec fn entry_of(path: Seq<char>, test_only: bool) -> Seq<char> {
    if test_only {
        test_library_entry(path)
    } else {
        library_entry(path)
    }
}

/// The entries of those of `paths` that are not in `seen`, each once, in
/// their order.
pub open spec fn entries_of(paths: Seq<Seq<char>>, seen: Set<Seq<char>>, test_only: bool) -> Seq<
    char,
>
    decreases paths.len(),
{
    if paths.len() == 0 {
        Seq::empty()
    } else if seen.contains(paths[0]) {
        entries_of(paths.skip(1), seen, test_only)
    } else {
        entry_of(paths[0], test_only) + entries_of(
            paths.skip(1),
            seen.insert(paths[0]),
            test_only,
        )
    }
}

/// The class path file for a project: a library entry for each path of the
/// class path for compiling, and a test library entry for each path of the
/// class path for testing that is not on the class path for compiling; no
/// path twice.
pub open spec fn classpath_file(compile: Seq<Seq<char>>, test: Seq<Seq<char>>) -> Seq<char> {
    classpath_head() + entries_of(compile, Set::empty(), false) + entries_of(
        test,
        compile.to_set(),
        true,
    ) + classpath_tail()
}

/// The settings that keep the editor from rewriting the build files.
pub open spec fn settings_text() -> Seq<char> {
    "{\n    \"java.configuration.updateBuildConfiguration\": \"disabled\"\n}\n"@
}

/// An ignore file with a line for `entry`, unless `entry` occurs in it
/// already. The line goes on a line of its own.
pub open spec fn with_ignored(content: Seq<char>, entry: Seq<char>) -> Seq<char> {
    if occurs_in(entry, content) {
        content
    } else if content.len() > 0 && content.last() != '\n' {
        content + seq!['\n'] + entry + seq!['\n']
    } else {
        content + entry + seq!['\n']
    }
}

/// An ignore file that leaves out the editor's project files.
pub open spec fn ignoring_editor_files(content: Seq<char>) -> Seq<char> {
    with_ignored(with_ignored(content, ".project"@), ".classpath"@)
}

/// The project description of the project `name`.
pub fn project_xml(name: &str) -> (r: String)
    ensures
        r@ == project_head() + name@ + project_tail(),
{
    let mut r = "<?xml version=\"1.0\" encoding=\"UTF-8\"?>\n<projectDescription>\n\t<name>".to_owned();
    r.append(name);
    r.append(
        "</name>\n\t<comment></comment>\n\t<projects>\n\t</projects>\n\t<buildSpec>\n\t\t<buildCommand>\n\t\t\t<name>org.eclipse.jdt.core.javabuilder</name>\n\t\t\t<arguments>\n\t\t\t</arguments>\n\t\t</buildCommand>\n\t</buildSpec>\n\t<natures>\n\t\t<nature>org.eclipse.jdt.core.javanature</nature>\n\t</natures>\n</projectDescription>\n",
    );
    r
}

/// Appends the entries of those of `paths` that `seen` does not hold, and
/// takes note of them in `seen`.
pub fn append_entries(
    out: &mut String,
    paths: &Vec<String>,
    seen: &mut StringMap<bool>,
    test_only: bool,
)
    ensures
        final(out)@ == old(out)@ + entries_of(views(paths@), old(seen)@.dom(), test_only),
        final(seen)@.dom() == old(seen)@.dom().union(views(paths@).to_set()),
{
    let ghost all = views(paths@);
    let ghost start = out@;
    let ghost seen0 = seen@.dom();
    let mut i: usize = 0;
    proof {
        assert(all.skip(0) == all);
        assert(all.take(0).to_set() =~= Set::<Seq<char>>::empty());
        assert(seen@.dom() =~= seen0.union(all.take(0).to_set()));
    }
    while i < paths.len()
        invariant
            i <= paths.len(),
            all == views(paths@),
            seen@.dom() == seen0.union(all.take(i as int).to_set()),
            out@ + entries_of(all.skip(i as int), seen@.dom(), test_only) == start + entries_of(
                all,
                seen0,
                test_only,
            ),
        decreases paths.len() - i,
    {
        let ghost before = out@;
        let ghost seen_before = seen@.dom();
        let path = &paths[i];
        proof {
            assert(all.skip(i as int)[0] == path@);
            assert(all.skip(i as int).skip(1) == all.skip(i + 1));
            assert(all.take(i + 1) == all.take(i as int).push(path@));
            assert(all.take(i + 1).to_set() =~= all.take(i as int).to_set().insert(path@)) by {
                vstd::seq_lib::seq_to_set_is_finite(all.take(i as int));
                assert forall|x: Seq<char>| all.take(i + 1).to_set().contains(x) <==> all.take(
                    i as int,
                ).to_set().insert(path@).contains(x) by {
                    if all.take(i + 1).contains(x) {
                        let k = all.take(i + 1).index_of(x);
                        if k < i {
                            assert(all.take(i as int)[k] == x);
                        }
                    }
                    if all.take(i as int).contains(x) {
                        let k = all.take(i as int).index_of(x);
                        assert(all.take(i + 1)[k] == x);
                    }
                    if x == path@ {
                        assert(all.take(i + 1)[i as int] == x);
                    }
                }
            }
        }
        if !seen.contains_key(path.as_str()) {
            seen.insert(path.clone(), true);
            if test_only {
                out.append("\t<classpathentry kind=\"lib\" path=\"");
                out.append(path.as_str());
                out.append(
                    "\">\n\t\t<attributes>\n\t\t\t<attribute name=\"test\" value=\"true\"/>\n\t\t</attributes>\n\t</classpathentry>\n",
                );
            } else {
                out.append("\t<classpathentry kind=\"lib\" path=\"");
                out.append(path.as_str());
                out.append("\"/>\n");
            }
            proof {
                assert(out@ == before + entry_of(path@, test_only));
                assert(seen@.dom() =~= seen_before.insert(path@));
                assert(out@ + entries_of(all.skip(i + 1), seen@.dom(), test_only) == before + (
                entry_of(path@, test_only) + entries_of(
                    all.skip(i + 1),
                    seen_before.insert(path@),
                    test_only,
                )));
                assert(seen@.dom() =~= seen0.union(all.take(i + 1).to_set()));
            }
        } else {
            proof {
                assert(seen@.dom() =~= seen0.union(all.take(i + 1).to_set()));
            }
        }
        i += 1;
    }
    proof {
        assert(all.skip(paths.len() as int) =~= Seq::<Seq<char>>::empty());
        assert(all.take(paths.len() as int) == all);
        assert(out@ + Seq::<char>::empty() == out@);
    }
}

/// The class path file for the class paths for compiling and for testing.
pub fn classpath_xml(compile: &Vec<String>, test: &Vec<String>) -> (r: String)
    ensures
        r@ == classpath_file(views(compile@), views(test@)),
{
    let mut r = "<?xml version=\"1.0\" encoding=\"UTF-8\"?>\n<classpath>\n\t<classpathentry kind=\"src\" path=\"src/main/java\"/>\n\t<classpathentry kind=\"src\" output=\"target/test-classes\" path=\"src/test/java\">\n\t\t<attributes>\n\t\t\t<attribute name=\"test\" value=\"true\"/>\n\t\t</attributes>\n\t</classpathentry>\n\t<classpathentry kind=\"con\" path=\"org.eclipse.jdt.launching.JRE_CONTAINER\"/>\n\t<classpathentry kind=\"output\" path=\"target/classes\"/>\n".to_owned();
    let mut seen: StringMap<bool> = StringMap::new();
    append_entries(&mut r, compile, &mut seen, false);
    proof {
        assert(seen@.dom() =~= views(compile@).to_set());
    }
    append_entries(&mut r, test, &mut seen, true);
    r.append("</classpath>\n");
    r
}

/// The settings file.
pub fn settings_json() -> (r: &'static str)
    ensures
        r@ == settings_text(),
{
    "{\n    \"java.configuration.updateBuildConfiguration\": \"disabled\"\n}\n"
}

/// `content` with a line for `entry`, unless `entry` occurs in it already.
pub fn add_ignored(content: String, entry: &str) -> (r: String)
    ensures
        r@ == with_ignored(content@, entry@),
{
    if contains(content.as_str(), entry) {
        return content;
    }
    let mut r = content;
    proof {
        reveal_strlit("\n");
        assert("\n"@ =~= seq!['\n']);
        if r@.len() > 0 && r@.last() == '\n' {
            assert(r@.subrange(r@.len() - 1, r@.len() as int) =~= seq!['\n']);
        }
        if seq!['\n'].is_suffix_of(r@) {
            assert(r@.subrange(r@.len() - 1, r@.len() as int)[0] == r@.last());
        }
    }
    if !r.as_str().is_empty() && !ends_with(r.as_str(), "\n") {
        r.push('\n');
    }
    r.append(entry);
    r.push('\n');
    proof {
        assert(r@ =~= with_ignored(content@, entry@));
    }
    r
}

/// The ignore file that leaves out the editor's project files, where the
/// one at hand does not do so already.
pub fn update_gitignore(current: &str) -> (r: Option<String>)
    ensures
        match r {
            Some(updated) => updated@ == ignoring_editor_files(current@) && (!occurs_in(
                ".project"@,
                current@,
            ) || !occurs_in(".classpath"@, current@)),
            None => occurs_in(".project"@, current@) && occurs_in(".classpath"@, current@)
                && ignoring_editor_files(current@) == current@,
        },
{
    let has_project = contains(current, ".project");
    let first = add_ignored(current.to_owned(), ".project");
    let has_classpath = contains(first.as_str(), ".classpath");
    if has_project && has_classpath {
        return None;
    }
    let second = add_ignored(first, ".classpath");
    Some(second)
}

} // verus!
