use vstd::prelude::*;
use vstd::string::StrSliceExecFns;
use vstd::string::StringExecFns;

use crate::config::push_char;
use crate::errors::Error;
use crate::project::{
    msg3, render_standard, std_token, strings_view, BuildScript, Project, ProjectS, ProjectType,
};

verus! {

/// A path separator becomes an underscore; every other character stays.
pub open spec fn sep_to_underscore(c: char) -> char {
    if c == '/' {
        '_'
    } else {
        c
    }
}

/// Every path separator replaced by an underscore.
pub open spec fn underscored(s: Seq<char>) -> Seq<char> {
    Seq::new(s.len(), |i: int| sep_to_underscore(s[i]))
}

/// A discovered source file: under the fixed source root, with the C source
/// extension.
pub open spec fn wf_source_path(file: Seq<char>) -> bool {
    &&& file.len() >= 8
    &&& file.subrange(0, 6) == "./src/"@
    &&& file.subrange(file.len() - 2, file.len() as int) == ".c"@
}

/// The object path of a source file: the source-root prefix stripped, the
/// remaining separators flattened to underscores, the source extension
/// replaced by the object extension, all under the fixed build directory.
pub open spec fn object_path_s(file: Seq<char>) -> Seq<char> {
    "./build/"@ + underscored(file.subrange(6, file.len() - 2)) + ".o"@
}

fn sep_exec(c: char) -> (r: char)
    ensures
        r == sep_to_underscore(c),
{
    if c == '/' {
        '_'
    } else {
        c
    }
}

/// The object path of one source file.
#[verifier::loop_isolation(false)]
pub fn object_path(file: &str) -> (r: String)
    requires
        wf_source_path(file@),
    ensures
        r@ == object_path_s(file@),
{
    let n = file.unicode_len();
    let mut out = "./build/".to_owned();
    let mut i: usize = 6;
    while i < n - 2
        invariant
            6 <= i <= n - 2,
            out@ =~= "./build/"@ + underscored(file@.subrange(6, i as int)),
        decreases n - i,
    {
        let c = file.get_char(i);
        push_char(&mut out, sep_exec(c));
        i = i + 1;
        proof {
            assert(out@ =~= "./build/"@ + underscored(file@.subrange(6, i as int)));
        }
    }
    out.append(".o");
    proof {
        assert(out@ =~= object_path_s(file@));
    }
    out
}

/// The flag list of one per-file compile invocation: the project's flags,
/// `-O3` in release mode, `-fpic` for a shared project, the `-std=` token,
/// then `-c <source> -o <object>`.
pub open spec fn compile_args_s(p: ProjectS, release: bool, file: Seq<char>) -> Seq<Seq<char>> {
    p.flags + (if release {
        seq!["-O3"@]
    } else {
        Seq::empty()
    }) + (if p.ptype is Shared {
        seq!["-fpic"@]
    } else {
        Seq::empty()
    }) + seq!["-std="@ + std_token(p.standard)] + seq!["-c"@, file, "-o"@, object_path_s(file)]
}

/// A copy of a list of strings.
fn clone_strings(v: &Vec<String>) -> (r: Vec<String>)
    ensures
        r@ == v@,
{
    let mut out: Vec<String> = Vec::new();
    let mut i: usize = 0;
    while i < v.len()
        invariant
            i <= v@.len(),
            out@ =~= v@.take(i as int),
        decreases v@.len() - i,
    {
        out.push(v[i].clone());
        proof {
            assert(out@ =~= v@.take(i + 1));
        }
        i = i + 1;
    }
    proof {
        assert(v@.take(v@.len() as int) =~= v@);
    }
    out
}

/// The compile invocation's flag list for one source file.
#[verifier::loop_isolation(false)]
pub fn compile_args(project: &Project, release: bool, file: &str) -> (r: Vec<String>)
    requires
        wf_source_path(file@),
    ensures
        strings_view(r@) == compile_args_s(project@, release, file@),
{
    let mut args = clone_strings(&project.flags);
    proof {
        assert(strings_view(args@) =~= project@.flags);
    }
    if release {
        args.push("-O3".to_owned());
    }
    let shared = matches!(project.ptype, ProjectType::Shared);
    if shared {
        args.push("-fpic".to_owned());
    }
    let mut stdf = "-std=".to_owned();
    let tok = render_standard(project.standard);
    stdf.append(tok.as_str());
    args.push(stdf);
    args.push("-c".to_owned());
    args.push(file.to_owned());
    args.push("-o".to_owned());
    args.push(object_path(file));
    proof {
        assert(strings_view(args@) =~= compile_args_s(project@, release, file@));
    }
    args
}

/// The program that performs the link step: the archiver for a static
/// library, else the compiler.
pub open spec fn link_program_s(p: ProjectS) -> Seq<char> {
    if p.ptype is Static {
        "ar"@
    } else {
        p.compiler
    }
}

/// The argument list of the link step, by project type.
pub open spec fn link_args_s(p: ProjectS, objs: Seq<Seq<char>>) -> Seq<Seq<char>> {
    match p.ptype {
        ProjectType::Binary => objs + seq!["-o"@, p.name],
        ProjectType::Static => seq!["rcs"@] + objs + seq!["lib"@ + p.name + ".a"@],
        ProjectType::Shared => objs + seq!["-shared"@, "-o"@, "lib"@ + p.name + ".so"@],
    }
}

/// The link invocation: the program to run and its argument list.
pub fn link_command(project: &Project, objs: &Vec<String>) -> (r: (String, Vec<String>))
    ensures
        r.0@ == link_program_s(project@),
        strings_view(r.1@) == link_args_s(project@, strings_view(objs@)),
{
    match project.ptype {
        ProjectType::Binary => {
            let mut args = clone_strings(objs);
            args.push("-o".to_owned());
            args.push(project.name.clone());
            proof {
                assert(strings_view(args@) =~= link_args_s(project@, strings_view(objs@)));
            }
            (project.compiler.clone(), args)
        },
        ProjectType::Static => {
            let mut args: Vec<String> = Vec::new();
            args.push("rcs".to_owned());
            let mut i: usize = 0;
            while i < objs.len()
                invariant
                    i <= objs@.len(),
                    args@.len() == i + 1,
                    args@[0]@ == "rcs"@,
                    args@.subrange(1, i + 1) =~= objs@.take(i as int),
                decreases objs@.len() - i,
            {
                args.push(objs[i].clone());
                proof {
                    assert(args@.subrange(1, i + 2) =~= objs@.take(i + 1));
                }
                i = i + 1;
            }
            let ghost n = objs@.len() as int;
            let ghost args1 = args@;
            args.push(msg3("lib", project.name.as_str(), ".a"));
            proof {
                assert(args1.subrange(1, n + 1) =~= objs@);
                assert forall|k: int| 0 <= k < n + 2 implies #[trigger] strings_view(args@)[k]
                    == link_args_s(project@, strings_view(objs@))[k] by {
                    if k == 0 {
                    } else if k <= n {
                        assert(args@[k] == args1[k]);
                        assert(args1[k] == args1.subrange(1, n + 1)[k - 1]);
                        assert(strings_view(objs@)[k - 1] == objs@[k - 1]@);
                    } else {
                    }
                }
                assert(strings_view(args@) =~= link_args_s(project@, strings_view(objs@)));
            }
            ("ar".to_owned(), args)
        },
        ProjectType::Shared => {
            let mut args = clone_strings(objs);
            args.push("-shared".to_owned());
            args.push("-o".to_owned());
            args.push(msg3("lib", project.name.as_str(), ".so"));
            proof {
                assert(strings_view(args@) =~= link_args_s(project@, strings_view(objs@)));
            }
            (project.compiler.clone(), args)
        },
    }
}

/// The fixed, ordered candidate build scripts, each with its interpreter.
pub open spec fn script_names_s() -> Seq<(Seq<char>, Seq<char>)> {
    seq![("./build.sh"@, "sh"@), ("./build.pl"@, "perl"@), ("./build.py"@, "python3"@)]
}

/// The candidate build scripts in order: each path with its interpreter.
pub fn script_candidates() -> (r: Vec<(String, String)>)
    ensures
        r@.len() == 3,
        forall|i: int|
            0 <= i < 3 ==> (#[trigger] r@[i]).0@ == script_names_s()[i].0 && r@[i].1@
                == script_names_s()[i].1,
{
    let mut v: Vec<(String, String)> = Vec::new();
    v.push(("./build.sh".to_owned(), "sh".to_owned()));
    v.push(("./build.pl".to_owned(), "perl".to_owned()));
    v.push(("./build.py".to_owned(), "python3".to_owned()));
    v
}

/// The index of the first set flag, if any.
pub open spec fn first_true(s: Seq<bool>) -> Option<int>
    decreases s.len(),
{
    if s.len() == 0 {
        None
    } else if s[0] {
        Some(0)
    } else {
        match first_true(s.drop_first()) {
            Some(i) => Some(i + 1),
            None => None,
        }
    }
}

pub proof fn lemma_first_true(s: Seq<bool>)
    ensures
        match first_true(s) {
            Some(i) => 0 <= i < s.len() && s[i] && forall|j: int| 0 <= j < i ==> !s[j],
            None => forall|j: int| 0 <= j < s.len() ==> !s[j],
        },
    decreases s.len(),
{
    if s.len() > 0 && !s[0] {
        lemma_first_true(s.drop_first());
        match first_true(s.drop_first()) {
            Some(i) => {
                assert(s[i + 1] == s.drop_first()[i]);
                assert forall|j: int| 0 <= j < i + 1 implies !s[j] by {
                    if j > 0 {
                        assert(!s.drop_first()[j - 1]);
                    }
                }
            },
            None => {
                assert forall|j: int| 0 <= j < s.len() implies !s[j] by {
                    if j > 0 {
                        assert(!s.drop_first()[j - 1]);
                    }
                }
            },
        }
    }
}

/// Picks the candidate build script to use: the first whose file exists.
/// `exists` holds, for each candidate in order, whether its file is on disk.
#[verifier::loop_isolation(false)]
pub fn choose_script(exists: &Vec<bool>) -> (r: Option<usize>)
    ensures
        match first_true(exists@) {
            Some(i) => r matches Some(u) && u as int == i,
            None => r is None,
        },
{
    let mut i: usize = 0;
    while i < exists.len()
        invariant
            i <= exists@.len(),
            forall|j: int| 0 <= j < i ==> !exists@[j],
        decreases exists@.len() - i,
    {
        if exists[i] {
            proof {
                lemma_first_true(exists@);
                match first_true(exists@) {
                    Some(f) => {
                        assert(!(f < i as int) && !(f > i as int));
                    },
                    None => {
                        assert(false);
                    },
                }
            }
            return Some(i);
        }
        i = i + 1;
    }
    proof {
        lemma_first_true(exists@);
        match first_true(exists@) {
            Some(f) => {
                assert(false);
            },
            None => {},
        }
    }
    None
}

/// The message reported when no candidate build script exists, naming every
/// candidate that was checked.
pub open spec fn msg_no_script() -> Seq<char> {
    "No buildscript found. Possible build scripts: ./build.sh,./build.pl,./build.py."@
}

/// The error of a hook with no script on disk.
pub fn no_script_error() -> (e: Error)
    ensures
        e.0@ == msg_no_script(),
{
    Error("No buildscript found. Possible build scripts: ./build.sh,./build.pl,./build.py.".to_owned())
}

/// The message of the fail-fast abort after a non-zero exit.
pub open spec fn msg_abort() -> Seq<char> {
    "Aborting at first failed command."@
}

/// The error of the fail-fast abort.
pub fn abort_error() -> (e: Error)
    ensures
        e.0@ == msg_abort(),
{
    Error("Aborting at first failed command.".to_owned())
}

/// Where the orchestrator stands in the build sequence.
#[derive(Copy, Clone, Debug, PartialEq, Eq, Structural)]
pub enum Phase {
    ScriptBefore,
    Compile,
    ScriptRepeat,
    Link,
    ScriptAfter,
    Done,
    Failed,
}

/// What the orchestrator asks its driver to do next.
pub enum BuildAction {
    /// Run this program with these arguments, synchronously, and report
    /// whether it exited with status zero.
    Invoke(String, Vec<String>),
    /// Resolve and run the build-script hook, and report whether it ran
    /// and exited with status zero.
    RunHook,
    /// The build is over, with this result.
    Finish(Result<(), Error>),
}

/// The mathematical value of an action.
pub enum ActionS {
    Invoke(Seq<char>, Seq<Seq<char>>),
    RunHook,
    Finish(Result<(), Seq<char>>),
}

impl View for BuildAction {
    type V = ActionS;

    open spec fn view(&self) -> ActionS {
        match self {
            BuildAction::Invoke(p, args) => ActionS::Invoke(p@, strings_view(args@)),
            BuildAction::RunHook => ActionS::RunHook,
            BuildAction::Finish(r) => ActionS::Finish(
                match r {
                    Ok(u) => Ok(*u),
                    Err(e) => Err(e.0@),
                },
            ),
        }
    }
}

/// The mathematical state of the orchestrator.
pub struct OrchS {
    pub project: ProjectS,
    pub release: bool,
    pub files: Seq<Seq<char>>,
    pub objs: Seq<Seq<char>>,
    pub idx: int,
    pub phase: Phase,
}

pub open spec fn wf_orch(o: OrchS) -> bool {
    &&& 0 <= o.idx <= o.files.len()
    &&& (o.phase is Compile ==> o.idx < o.files.len())
    &&& forall|i: int| 0 <= i < o.files.len() ==> wf_source_path(#[trigger] o.files[i])
    &&& o.objs == Seq::new(o.idx as nat, |i: int| object_path_s(o.files[i]))
}

/// The starting state: the `Before` hook if asked for, else compilation,
/// or straight to the link when there is nothing to compile.
pub open spec fn init_s(p: ProjectS, release: bool, files: Seq<Seq<char>>) -> OrchS {
    OrchS {
        project: p,
        release,
        files,
        objs: Seq::empty(),
        idx: 0,
        phase: if p.build_script is Before {
            Phase::ScriptBefore
        } else if files.len() == 0 {
            Phase::Link
        } else {
            Phase::Compile
        },
    }
}

/// The action each state asks for.
pub open spec fn action_s(o: OrchS) -> ActionS {
    match o.phase {
        Phase::ScriptBefore => ActionS::RunHook,
        Phase::ScriptRepeat => ActionS::RunHook,
        Phase::ScriptAfter => ActionS::RunHook,
        Phase::Compile => ActionS::Invoke(
            o.project.compiler,
            compile_args_s(o.project, o.release, o.files[o.idx]),
        ),
        Phase::Link => ActionS::Invoke(link_program_s(o.project), link_args_s(o.project, o.objs)),
        Phase::Done => ActionS::Finish(Ok(())),
        Phase::Failed => ActionS::Finish(Err(msg_abort())),
    }
}

/// The next state once the driver reports whether the action succeeded.
/// Any failure is terminal; a successful compile records the object file
/// and moves on, through the `Repeat` hook when one is asked for.
pub open spec fn step_s(o: OrchS, success: bool) -> OrchS {
    if o.phase is Done || o.phase is Failed {
        o
    } else if !success {
        OrchS { phase: Phase::Failed, ..o }
    } else {
        match o.phase {
            Phase::ScriptBefore => OrchS { phase: Phase::Done, ..o },
            Phase::Compile => OrchS {
                objs: o.objs.push(object_path_s(o.files[o.idx])),
                idx: o.idx + 1,
                phase: if o.project.build_script is Repeat {
                    Phase::ScriptRepeat
                } else if o.idx + 1 < o.files.len() {
                    Phase::Compile
                } else {
                    Phase::Link
                },
                ..o
            },
            Phase::ScriptRepeat => OrchS {
                phase: if o.idx < o.files.len() {
                    Phase::Compile
                } else {
                    Phase::Link
                },
                ..o
            },
            Phase::Link => OrchS {
                phase: if o.project.build_script is After {
                    Phase::ScriptAfter
                } else {
                    Phase::Done
                },
                ..o
            },
            Phase::ScriptAfter => OrchS { phase: Phase::Done, ..o },
            _ => o,
        }
    }
}

/// A step keeps the state well formed.
pub proof fn lemma_step_wf(o: OrchS, success: bool)
    requires
        wf_orch(o),
    ensures
        wf_orch(step_s(o, success)),
{
    let o2 = step_s(o, success);
    if o.phase is Compile && success && !(o.phase is Done) {
        assert(o2.objs =~= Seq::new((o.idx + 1) as nat, |i: int| object_path_s(o.files[i])));
    }
}

/// Drives external compile, link and hook processes to completion or first
/// failure, handing its driver one action at a time.
pub struct Orchestrator {
    project: Project,
    release: bool,
    files: Vec<String>,
    objs: Vec<String>,
    idx: usize,
    phase: Phase,
}

impl View for Orchestrator {
    type V = OrchS;

    closed spec fn view(&self) -> OrchS {
        OrchS {
            project: self.project@,
            release: self.release,
            files: strings_view(self.files@),
            objs: strings_view(self.objs@),
            idx: self.idx as int,
            phase: self.phase,
        }
    }
}

impl Orchestrator {
    /// A fresh orchestrator over the discovered source files, in the order
    /// given; the caller fixes that order deterministically.
    pub fn new(project: Project, release: bool, files: Vec<String>) -> (r: Orchestrator)
        requires
            forall|i: int| 0 <= i < files@.len() ==> wf_source_path(#[trigger] files@[i]@),
        ensures
            r@ == init_s(project@, release, strings_view(files@)),
            wf_orch(r@),
    {
        let before = matches!(project.build_script, BuildScript::Before);
        let phase = if before {
            Phase::ScriptBefore
        } else if files.len() == 0 {
            Phase::Link
        } else {
            Phase::Compile
        };
        let r = Orchestrator { project, release, files, objs: Vec::new(), idx: 0, phase };
        proof {
            assert(r@.objs =~= Seq::empty());
            assert(r@.objs =~= Seq::new(0, |i: int| object_path_s(r@.files[i])));
        }
        r
    }

    /// What to do next, as `action_s` says of the current state.
    pub fn next_action(&self) -> (a: BuildAction)
        requires
            wf_orch(self@),
        ensures
            a@ == action_s(self@),
    {
        match self.phase {
            Phase::ScriptBefore => BuildAction::RunHook,
            Phase::ScriptRepeat => BuildAction::RunHook,
            Phase::ScriptAfter => BuildAction::RunHook,
            Phase::Compile => {
                let args = compile_args(&self.project, self.release, self.files[self.idx].as_str());
                BuildAction::Invoke(self.project.compiler.clone(), args)
            },
            Phase::Link => {
                let (prog, args) = link_command(&self.project, &self.objs);
                BuildAction::Invoke(prog, args)
            },
            Phase::Done => BuildAction::Finish(Ok(())),
            Phase::Failed => BuildAction::Finish(Err(abort_error())),
        }
    }

    /// Takes the driver's report on the last action: the new state is
    /// exactly `step_s` of the old one.  Any failure is terminal.
    pub fn report(&mut self, success: bool)
        requires
            wf_orch(old(self)@),
        ensures
            final(self)@ == step_s(old(self)@, success),
            wf_orch(final(self)@),
    {
        proof {
            lemma_step_wf(old(self)@, success);
        }
        match self.phase {
            Phase::Done => {},
            Phase::Failed => {},
            _ => {
                if !success {
                    self.phase = Phase::Failed;
                } else {
                    match self.phase {
                        Phase::ScriptBefore => {
                            self.phase = Phase::Done;
                        },
                        Phase::Compile => {
                            proof {
                                assert(old(self)@.phase is Compile);
                                assert(self.idx < self.files.len());
                            }
                            let ghost objs0 = strings_view(self.objs@);
                            let obj = object_path(self.files[self.idx].as_str());
                            self.objs.push(obj);
                            self.idx = self.idx + 1;
                            let repeat = matches!(self.project.build_script, BuildScript::Repeat);
                            if repeat {
                                self.phase = Phase::ScriptRepeat;
                            } else if self.idx < self.files.len() {
                                self.phase = Phase::Compile;
                            } else {
                                self.phase = Phase::Link;
                            }
                            proof {
                                assert(strings_view(self.objs@) =~= objs0.push(
                                    object_path_s(old(self)@.files[old(self)@.idx])));
                            }
                        },
                        Phase::ScriptRepeat => {
                            if self.idx < self.files.len() {
                                self.phase = Phase::Compile;
                            } else {
                                self.phase = Phase::Link;
                            }
                        },
                        Phase::Link => {
                            let after = matches!(self.project.build_script, BuildScript::After);
                            if after {
                                self.phase = Phase::ScriptAfter;
                            } else {
                                self.phase = Phase::Done;
                            }
                        },
                        Phase::ScriptAfter => {
                            self.phase = Phase::Done;
                        },
                        _ => {},
                    }
                }
            },
        }
    }
}

/// The actions a run issues, one step per reported exit, stopping once the
/// build is over.
pub open spec fn run_actions_s(o: OrchS, exits: Seq<bool>) -> Seq<ActionS>
    decreases exits.len(),
{
    if o.phase is Done || o.phase is Failed || exits.len() == 0 {
        Seq::empty()
    } else {
        seq![action_s(o)] + run_actions_s(step_s(o, exits[0]), exits.drop_first())
    }
}

proof fn lemma_fail_fast_from(o: OrchS, exits: Seq<bool>)
    requires
        wf_orch(o),
        o.phase is Compile,
        !(o.project.build_script is Repeat),
        exits.len() >= 1,
        forall|j: int| 0 <= j < exits.len() - 1 ==> exits[j],
        !exits[exits.len() - 1],
        o.idx + exits.len() - 1 < o.files.len(),
    ensures
        run_actions_s(o, exits) =~= Seq::new(
            exits.len(),
            |i: int| ActionS::Invoke(
                o.project.compiler,
                compile_args_s(o.project, o.release, o.files[o.idx + i]),
            ),
        ),
    decreases exits.len(),
{
    lemma_step_wf(o, exits[0]);
    let goal = Seq::new(
        exits.len(),
        |i: int| ActionS::Invoke(
            o.project.compiler,
            compile_args_s(o.project, o.release, o.files[o.idx + i]),
        ),
    );
    if exits.len() == 1 {
        assert(step_s(o, exits[0]).phase is Failed);
        assert(run_actions_s(step_s(o, exits[0]), exits.drop_first()) == Seq::<ActionS>::empty());
        assert(run_actions_s(o, exits) =~= seq![action_s(o)]);
        assert(goal[0] == action_s(o));
        assert(run_actions_s(o, exits) =~= goal);
    } else {
        let o2 = step_s(o, true);
        assert(exits[0]);
        assert(o2.phase is Compile);
        lemma_fail_fast_from(o2, exits.drop_first());
        let m = exits.len();
        let f1 = Seq::new(
            m,
            |i: int| ActionS::Invoke(
                o.project.compiler,
                compile_args_s(o.project, o.release, o.files[o.idx + i]),
            ),
        );
        let f2 = Seq::new(
            (m - 1) as nat,
            |i: int| ActionS::Invoke(
                o2.project.compiler,
                compile_args_s(o2.project, o2.release, o2.files[o2.idx + i]),
            ),
        );
        assert(run_actions_s(o, exits) == seq![action_s(o)] + run_actions_s(o2, exits.drop_first()));
        assert(run_actions_s(o2, exits.drop_first()) =~= f2);
        assert forall|i: int| 0 <= i < m implies (seq![action_s(o)] + f2)[i] == f1[i] by {
            if i > 0 {
                assert(f2[i - 1] == ActionS::Invoke(
                    o.project.compiler,
                    compile_args_s(o.project, o.release, o.files[o.idx + i]),
                ));
            }
        }
        assert(run_actions_s(o, exits) =~= f1);
        assert(f1 =~= goal);
        assert(run_actions_s(o, exits) =~= goal);
    }
}

/// Fail-fast: if the compile of one file fails, no later file is compiled,
/// the link step is not attempted, and no hook runs.  With exits that are
/// all successes followed by one failure, the actions a run issues are
/// exactly the compile invocations of the files up to and including the
/// failed one.  (Here the timing is `Absent` or `After`, so that no hook
/// stands between compiles.)
pub proof fn lemma_fail_fast(p: ProjectS, release: bool, files: Seq<Seq<char>>, exits: Seq<bool>)
    requires
        forall|i: int| 0 <= i < files.len() ==> wf_source_path(#[trigger] files[i]),
        !(p.build_script is Before),
        !(p.build_script is Repeat),
        1 <= exits.len() <= files.len(),
        forall|j: int| 0 <= j < exits.len() - 1 ==> exits[j],
        !exits[exits.len() - 1],
    ensures
        run_actions_s(init_s(p, release, files), exits) =~= Seq::new(
            exits.len(),
            |i: int| ActionS::Invoke(p.compiler, compile_args_s(p, release, files[i])),
        ),
{
    let o = init_s(p, release, files);
    assert(o.objs =~= Seq::new(0, |i: int| object_path_s(o.files[i])));
    lemma_fail_fast_from(o, exits);
}

/// A compile invocation's flag list holds `-fpic` exactly when the project
/// is a shared library — granted the project's own flags do not themselves
/// hold `-fpic`.
pub proof fn lemma_fpic(p: ProjectS, release: bool, file: Seq<char>)
    requires
        wf_source_path(file),
        forall|i: int| 0 <= i < p.flags.len() ==> p.flags[i] != "-fpic"@,
    ensures
        compile_args_s(p, release, file).contains("-fpic"@) <==> p.ptype is Shared,
{
    reveal_strlit("-fpic");
    reveal_strlit("-O3");
    reveal_strlit("-std=");
    reveal_strlit("-c");
    reveal_strlit("-o");
    reveal_strlit("./src/");
    reveal_strlit("./build/");
    let args = compile_args_s(p, release, file);
    let n = p.flags.len() as int;
    let r1 = n + if release {
        1int
    } else {
        0
    };
    if p.ptype is Shared {
        assert(args[r1] == "-fpic"@);
        assert(args.contains("-fpic"@));
    } else {
        assert(args.len() == r1 + 5);
        assert(("-std="@ + std_token(p.standard))[1] == 's');
        assert(file[0] == "./src/"@[0]);
        assert(object_path_s(file)[0] == "./build/"@[0]);
        assert forall|i: int| 0 <= i < args.len() implies args[i] != "-fpic"@ by {
            if i < n {
                assert(args[i] == p.flags[i]);
            } else if release && i == n {
                assert(args[i] == "-O3"@);
            } else if i == r1 {
                assert(args[i] == "-std="@ + std_token(p.standard));
            } else if i == r1 + 1 {
                assert(args[i] == "-c"@);
            } else if i == r1 + 2 {
                assert(args[i] == file);
            } else if i == r1 + 3 {
                assert(args[i] == "-o"@);
            } else {
                assert(args[i] == object_path_s(file));
            }
        }
        if args.contains("-fpic"@) {
            let i = choose|i: int| 0 <= i < args.len() && args[i] == "-fpic"@;
            assert(false);
        }
    }
}

} // verus!
