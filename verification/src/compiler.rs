//! The Java compiler: the arguments it is called with and what is made of
//! a failure.

use crate::classpath::{format_classpath_for, list_separator, main_separator};
use crate::config::ProjectConfig;
use crate::error::AppError;
use crate::text::{decimal, decimal_string, joined, views};
use vstd::prelude::*;
use vstd::string::*;

verus! {

/// What a compilation gave.
#[derive(Debug)]
pub struct CompilationResult {
    pub success: bool,
    pub stdout: String,
    pub stderr: String,
}

/// A Java compiler at a known place, for a known Java version.
#[derive(Debug)]
pub struct JavaCompiler {
    pub javac_path: String,
    pub java_version: String,
}

/// The arguments of a compilation: source and target version, the output
/// directory, the class path unless it is empty, the extra arguments, and
/// the source files.
pub open spec fn compile_arguments(
    java_version: Seq<char>,
    output_dir: Seq<char>,
    classpath: Seq<Seq<char>>,
    separator: Seq<char>,
    args: Seq<Seq<char>>,
    source_files: Seq<Seq<char>>,
) -> Seq<Seq<char>> {
    seq!["-source"@, java_version, "-target"@, java_version, "-d"@, output_dir] + (if classpath.len()
        == 0 {
        Seq::<Seq<char>>::empty()
    } else {
        seq!["-cp"@, joined(classpath, separator)]
    }) + args + source_files
}

/// The message of a failed compilation of `files` files.
pub open spec fn failure_message(files: nat, stderr: Seq<char>) -> Seq<char> {
    "Compilation failed with "@ + decimal(files) + " file(s).\n"@ + stderr
}

/// Appends a copy of every string of `more` to `r`.
pub fn extend_strings(r: &mut Vec<String>, more: &Vec<String>)
    ensures
        views(final(r)@) == views(old(r)@) + views(more@),
{
    let mut i: usize = 0;
    proof {
        assert(views(r@) =~= views(old(r)@) + views(more@).take(0));
    }
    while i < more.len()
        invariant
            i <= more.len(),
            views(r@) == views(old(r)@) + views(more@).take(i as int),
        decreases more.len() - i,
    {
        let ghost before = views(r@);
        r.push(more[i].clone());
        proof {
            assert(views(r@) =~= before.push(more@[i as int]@));
            assert(views(more@).take(i + 1) =~= views(more@).take(i as int).push(more@[i as int]@));
        }
        i += 1;
    }
    proof {
        assert(views(more@).take(more.len() as int) == views(more@));
    }
}

impl JavaCompiler {
    /// The compiler at `javac_path` for the Java version of the project.
    pub fn with_javac(javac_path: String, config: &ProjectConfig) -> (c: Self)
        ensures
            c.javac_path == javac_path,
            c.java_version@ == config.project.java_version@,
    {
        JavaCompiler { javac_path, java_version: config.project.java_version.clone() }
    }

    /// The arguments of a compilation on a machine whose paths are
    /// separated by `path_separator`.
    pub fn arguments(
        &self,
        source_files: &Vec<String>,
        classpath: &Vec<String>,
        output_dir: &str,
        args: &Vec<String>,
        path_separator: char,
    ) -> (r: Vec<String>)
        ensures
            views(r@) == compile_arguments(
                self.java_version@,
                output_dir@,
                views(classpath@),
                list_separator(path_separator),
                views(args@),
                views(source_files@),
            ),
    {
        let mut r: Vec<String> = Vec::new();
        r.push("-source".to_owned());
        r.push(self.java_version.clone());
        r.push("-target".to_owned());
        r.push(self.java_version.clone());
        r.push("-d".to_owned());
        r.push(output_dir.to_owned());
        proof {
            assert(views(r@) =~= seq![
                "-source"@,
                self.java_version@,
                "-target"@,
                self.java_version@,
                "-d"@,
                output_dir@,
            ]);
        }
        if classpath.len() > 0 {
            let ghost before = views(r@);
            r.push("-cp".to_owned());
            r.push(format_classpath_for(classpath, path_separator));
            proof {
                assert(views(r@) =~= before + seq![
                    "-cp"@,
                    joined(views(classpath@), list_separator(path_separator)),
                ]);
            }
        } else {
            proof {
                assert(views(r@) =~= views(r@) + Seq::<Seq<char>>::empty());
            }
        }
        extend_strings(&mut r, args);
        extend_strings(&mut r, source_files);
        r
    }

    /// The error for a compilation of `files` files that the compiler
    /// refused with `stderr`.
    pub fn failure(files: usize, stderr: &str) -> (e: AppError)
        ensures
            e is CompilationFailed,
            e->CompilationFailed_message@ == failure_message(files as nat, stderr@),
    {
        let mut message = "Compilation failed with ".to_owned();
        message.append(decimal_string(files as u64).as_str());
        message.append(" file(s).\n");
        message.append(stderr);
        AppError::CompilationFailed { message }
    }

    /// The paths as one list, separated as this machine separates them.
    pub fn format_classpath(paths: &Vec<String>) -> (r: String)
        ensures
            r@ == joined(views(paths@), seq![';']) || r@ == joined(views(paths@), seq![':']),
    {
        format_classpath_for(paths, main_separator())
    }
}


impl Clone for CompilationResult {
    fn clone(&self) -> (r: Self)
        ensures
            r == *self,
    {
        CompilationResult {
            success: self.success,
            stdout: self.stdout.clone(),
            stderr: self.stderr.clone(),
        }
    }
}

impl Clone for JavaCompiler {
    fn clone(&self) -> (r: Self)
        ensures
            r == *self,
    {
        JavaCompiler { javac_path: self.javac_path.clone(), java_version: self.java_version.clone() }
    }
}

} // verus!
