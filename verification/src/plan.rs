//! Mapping detected toolchains to the commands that install their dependencies.
//!
//! I/O-free: building a plan only rewrites data, so ordering and command
//! construction are stated and proved directly.

use vstd::prelude::*;

use crate::detect::{
    detected, detections_view, lemma_detection_order, rank, views, Detection, PackageManager,
    PythonMode, Toolchain,
};
use crate::run::{Outcome, Status};
use crate::ui::{Node, PlanRow};

verus! {

/// One install command, labelled with the name shown while it runs and the files
/// that selected it.
#[derive(Debug, Clone, PartialEq, Eq)]
pub struct Step {
    pub name: &'static str,
    pub evidence: String,
    pub program: &'static str,
    pub args: Vec<&'static str>,
}

/// What a step is, as text.
#[verifier::ext_equal]
pub struct StepView {
    pub name: Seq<char>,
    pub evidence: Seq<char>,
    pub program: Seq<char>,
    pub args: Seq<Seq<char>>,
}

impl View for Step {
    type V = StepView;

    open spec fn view(&self) -> StepView {
        StepView {
            name: self.name@,
            evidence: self.evidence@,
            program: self.program@,
            args: views(self.args@),
        }
    }
}

/// Each argument, preceded by a space.
pub open spec fn spaced(args: Seq<Seq<char>>) -> Seq<char>
    decreases args.len(),
{
    if args.len() == 0 {
        Seq::empty()
    } else {
        spaced(args.drop_last()) + " "@ + args.last()
    }
}

/// A command as a shell would show it: the program, then each argument after a
/// space.
pub open spec fn command_text(program: Seq<char>, args: Seq<Seq<char>>) -> Seq<char> {
    program + spaced(args)
}

/// The step that installs a toolchain's dependencies, labelled with `evidence`.
pub open spec fn step_for(toolchain: Toolchain, evidence: Seq<char>) -> StepView {
    let (name, program, args) = match toolchain {
        Toolchain::Mise => ("mise"@, "mise"@, seq!["install"@]),
        Toolchain::Rust => ("rust"@, "cargo"@, seq!["fetch"@]),
        Toolchain::Go => ("go"@, "go"@, seq!["mod"@, "download"@]),
        Toolchain::Node(PackageManager::Bun) => ("bun"@, "bun"@, seq!["install"@]),
        Toolchain::Node(PackageManager::Pnpm) => ("pnpm"@, "pnpm"@, seq!["install"@]),
        Toolchain::Node(PackageManager::Yarn) => ("yarn"@, "yarn"@, seq!["install"@]),
        Toolchain::Node(PackageManager::Npm) => ("npm"@, "npm"@, seq!["install"@]),
        Toolchain::Deno => ("deno"@, "deno"@, seq!["install"@]),
        Toolchain::Clojure => ("clojure"@, "clojure"@, seq!["-P"@]),
        Toolchain::Babashka => ("babashka"@, "bb"@, seq!["prepare"@]),
        Toolchain::Maven { wrapper } => (
            "maven"@,
            if wrapper {
                "./mvnw"@
            } else {
                "mvn"@
            },
            seq!["-B"@, "dependency:go-offline"@],
        ),
        Toolchain::Gradle { wrapper } => (
            "gradle"@,
            if wrapper {
                "./gradlew"@
            } else {
                "gradle"@
            },
            seq!["dependencies"@],
        ),
        Toolchain::Python(PythonMode::Project) => ("python"@, "uv"@, seq!["sync"@]),
        Toolchain::Python(PythonMode::Requirements) => (
            "python"@,
            "uv"@,
            seq!["pip"@, "install"@, "-r"@, "requirements.txt"@],
        ),
        Toolchain::Terraform => ("terraform"@, "terraform"@, seq!["init"@, "-input=false"@]),
    };
    StepView { name, evidence, program, args }
}

/// A step rewritten to run under `mise exec`.
pub open spec fn under_mise(s: StepView) -> StepView {
    StepView {
        name: s.name,
        evidence: s.evidence,
        program: "mise"@,
        args: seq!["exec"@, "--"@, s.program] + s.args,
    }
}

/// The views of a sequence of steps.
pub open spec fn steps_view(steps: Seq<Step>) -> Seq<StepView> {
    steps.map_values(|s: Step| s@)
}

/// The mise step of a plan for `ds`: that of the last mise detection.
pub open spec fn planned_mise(ds: Seq<(Toolchain, Seq<char>)>) -> Option<StepView>
    decreases ds.len(),
{
    if ds.len() == 0 {
        None
    } else if ds.last().0 == Toolchain::Mise {
        Some(step_for(ds.last().0, ds.last().1))
    } else {
        planned_mise(ds.drop_last())
    }
}

/// The steps of a plan for `ds` that may run at once: one for each detection
/// other than mise, in the order detected.
pub open spec fn planned_parallel(ds: Seq<(Toolchain, Seq<char>)>) -> Seq<StepView>
    decreases ds.len(),
{
    if ds.len() == 0 {
        Seq::empty()
    } else if ds.last().0 == Toolchain::Mise {
        planned_parallel(ds.drop_last())
    } else {
        planned_parallel(ds.drop_last()).push(step_for(ds.last().0, ds.last().1))
    }
}

pub open spec fn opt_step_view(s: Option<Step>) -> Option<StepView> {
    match s {
        Some(s) => Some(s@),
        None => None,
    }
}

impl Step {
    /// The command as a shell would show it.
    pub fn command_line(&self) -> (r: String)
        ensures
            r@ == command_text(self.program@, views(self.args@)),
    {
        let mut r = String::from_str(self.program);
        let mut i: usize = 0;
        while i < self.args.len()
            invariant
                0 <= i <= self.args@.len(),
                r@ == command_text(self.program@, views(self.args@).take(i as int)),
            decreases self.args@.len() - i,
        {
            r.append(" ");
            r.append(self.args[i]);
            assert(views(self.args@).take(i + 1).drop_last() =~= views(self.args@).take(i as int));
            i = i + 1;
        }
        assert(views(self.args@).take(i as int) =~= views(self.args@));
        r
    }
}

/// An ordered install plan: `mise` runs to completion first because it provides
/// the toolchains the remaining steps need, and `parallel` may then run at once.
#[derive(Debug, Clone, PartialEq, Eq)]
pub struct Plan {
    pub mise: Option<Step>,
    pub parallel: Vec<Step>,
}

impl Plan {
    /// Every step in execution order, as views.
    pub open spec fn all_steps(&self) -> Seq<StepView> {
        match self.mise {
            Some(m) => seq![m@] + steps_view(self.parallel@),
            None => steps_view(self.parallel@),
        }
    }

    pub fn is_empty(&self) -> (r: bool)
        ensures
            r == (self.mise is None && self.parallel@.len() == 0),
    {
        self.mise.is_none() && self.parallel.len() == 0
    }

    /// Every step in execution order.
    pub fn steps(&self) -> (r: Vec<&Step>)
        ensures
            r@.map_values(|s: &Step| s@) == self.all_steps(),
    {
        let mut r: Vec<&Step> = Vec::new();
        match &self.mise {
            Some(m) => r.push(m),
            None => {},
        }
        let ghost first = r@.map_values(|s: &Step| s@);
        let mut i: usize = 0;
        while i < self.parallel.len()
            invariant
                0 <= i <= self.parallel@.len(),
                r@.map_values(|s: &Step| s@) == first + steps_view(self.parallel@).take(i as int),
            decreases self.parallel@.len() - i,
        {
            let ghost prev = r@;
            r.push(&self.parallel[i]);
            assert(r@.map_values(|s: &Step| s@) =~= prev.map_values(|s: &Step| s@).push(
                self.parallel@[i as int]@,
            ));
            assert(steps_view(self.parallel@).take(i + 1) =~= steps_view(self.parallel@).take(
                i as int,
            ).push(self.parallel@[i as int]@));
            assert(r@.map_values(|s: &Step| s@) =~= first + steps_view(self.parallel@).take(
                i + 1,
            ));
            i = i + 1;
        }
        assert(steps_view(self.parallel@).take(i as int) =~= steps_view(self.parallel@));
        assert(r@.map_values(|s: &Step| s@) =~= self.all_steps());
        r
    }
}

/// Groups the detections into a plan: the mise step apart, every other step in
/// the order it was detected.
pub fn plan(detections: &[Detection]) -> (r: Plan)
    ensures
        opt_step_view(r.mise) == planned_mise(detections_view(detections@)),
        steps_view(r.parallel@) == planned_parallel(detections_view(detections@)),
{
    let mut mise: Option<Step> = None;
    let mut parallel: Vec<Step> = Vec::new();
    let mut i: usize = 0;
    while i < detections.len()
        invariant
            0 <= i <= detections@.len(),
            opt_step_view(mise) == planned_mise(detections_view(detections@).take(i as int)),
            steps_view(parallel@) == planned_parallel(detections_view(detections@).take(i as int)),
        decreases detections@.len() - i,
    {
        let detection = &detections[i];
        let s = step(detection);
        assert(detections_view(detections@).take(i + 1).drop_last() =~= detections_view(
            detections@,
        ).take(i as int));
        let ghost before = steps_view(parallel@);
        let ghost sv = s@;
        if detection.toolchain == Toolchain::Mise {
            mise = Some(s);
        } else {
            parallel.push(s);
            assert(steps_view(parallel@) =~= before.push(sv));
        }
        i = i + 1;
    }
    assert(detections_view(detections@).take(i as int) =~= detections_view(detections@));
    Plan { mise, parallel }
}

fn make(name: &'static str, evidence: String, program: &'static str, args: Vec<&'static str>) -> (r: Step)
    ensures
        r.name == name,
        r.evidence == evidence,
        r.program == program,
        r.args == args,
{
    Step { name, evidence, program, args }
}

/// The step that installs the dependencies of the detected toolchain.
pub fn step(detection: &Detection) -> (r: Step)
    ensures
        r@ == step_for(detection.toolchain, detection.evidence@),
{
    let evidence = detection.evidence.clone();
    let r = match detection.toolchain {
        Toolchain::Mise => make("mise", evidence, "mise", vec!["install"]),
        Toolchain::Rust => make("rust", evidence, "cargo", vec!["fetch"]),
        Toolchain::Go => make("go", evidence, "go", vec!["mod", "download"]),
        Toolchain::Node(manager) => match manager {
            PackageManager::Bun => make("bun", evidence, "bun", vec!["install"]),
            PackageManager::Pnpm => make("pnpm", evidence, "pnpm", vec!["install"]),
            PackageManager::Yarn => make("yarn", evidence, "yarn", vec!["install"]),
            PackageManager::Npm => make("npm", evidence, "npm", vec!["install"]),
        },
        Toolchain::Deno => make("deno", evidence, "deno", vec!["install"]),
        Toolchain::Clojure => make("clojure", evidence, "clojure", vec!["-P"]),
        Toolchain::Babashka => make("babashka", evidence, "bb", vec!["prepare"]),
        Toolchain::Maven { wrapper } => make(
            "maven",
            evidence,
            if wrapper {
                "./mvnw"
            } else {
                "mvn"
            },
            vec!["-B", "dependency:go-offline"],
        ),
        Toolchain::Gradle { wrapper } => make(
            "gradle",
            evidence,
            if wrapper {
                "./gradlew"
            } else {
                "gradle"
            },
            vec!["dependencies"],
        ),
        Toolchain::Python(mode) => match mode {
            PythonMode::Project => make("python", evidence, "uv", vec!["sync"]),
            PythonMode::Requirements => make(
                "python",
                evidence,
                "uv",
                vec!["pip", "install", "-r", "requirements.txt"],
            ),
        },
        Toolchain::Terraform => make("terraform", evidence, "terraform", vec!["init", "-input=false"]),
    };
    assert(r@ =~= step_for(detection.toolchain, detection.evidence@));
    r
}

/// Rewrites a step to run under `mise exec`, so tools that `mise install` just
/// placed in the project are resolved without re-entering the shell.
pub fn through_mise(step: Step) -> (r: Step)
    ensures
        r@ == under_mise(step@),
{
    let mut args = vec!["exec", "--", step.program];
    let mut i: usize = 0;
    while i < step.args.len()
        invariant
            0 <= i <= step.args@.len(),
            views(args@) == seq!["exec"@, "--"@, step.program@] + views(step.args@).take(i as int),
        decreases step.args@.len() - i,
    {
        let ghost prev = args@;
        args.push(step.args[i]);
        assert(views(args@) =~= views(prev).push(step.args@[i as int]@));
        assert(views(step.args@).take(i + 1) =~= views(step.args@).take(i as int).push(
            step.args@[i as int]@,
        ));
        assert(views(args@) =~= seq!["exec"@, "--"@, step.program@] + views(step.args@).take(
            i + 1,
        ));
        i = i + 1;
    }
    assert(views(step.args@).take(i as int) =~= views(step.args@));
    let r = Step { name: step.name, evidence: step.evidence, program: "mise", args };
    assert(r@ =~= under_mise(step@));
    r
}

impl Plan {
    /// The name of the step that the step at `index` of `all_steps` waits for:
    /// the steps that may run at once wait for mise, when there is a mise step.
    pub open spec fn waits_for(&self, index: int) -> Option<Seq<char>> {
        match self.mise {
            Some(m) => if index >= 1 {
                Some(m.name@)
            } else {
                None
            },
            None => None,
        }
    }

    /// Every step in execution order, with the step it waits for.
    pub fn dependencies(&self) -> (r: Vec<Node<'static>>)
        ensures
            r@.len() == self.all_steps().len(),
            forall|i: int|
                0 <= i < r@.len() ==> {
                    &&& (#[trigger] r@[i]).name@ == self.all_steps()[i].name
                    &&& match r@[i].after {
                        Some(a) => self.waits_for(i) == Some(a@),
                        None => self.waits_for(i) is None,
                    }
                },
    {
        let mut r: Vec<Node<'static>> = Vec::new();
        let after: Option<&'static str> = match &self.mise {
            Some(m) => {
                r.push(Node { name: m.name, after: None });
                Some(m.name)
            },
            None => None,
        };
        let offset: usize = r.len();
        let mut i: usize = 0;
        while i < self.parallel.len()
            invariant
                0 <= i <= self.parallel@.len(),
                offset == (if self.mise is Some { 1int } else { 0int }),
                r@.len() == offset + i,
                after == match self.mise {
                    Some(m) => Some(m.name),
                    None => None::<&'static str>,
                },
                forall|j: int|
                    0 <= j < r@.len() ==> {
                        &&& (#[trigger] r@[j]).name@ == self.all_steps()[j].name
                        &&& match r@[j].after {
                            Some(a) => self.waits_for(j) == Some(a@),
                            None => self.waits_for(j) is None,
                        }
                    },
            decreases self.parallel@.len() - i,
        {
            r.push(Node { name: self.parallel[i].name, after });
            i = i + 1;
        }
        r
    }

    /// The rows of the dry-run listing: each step's name, evidence and command,
    /// in execution order.
    pub fn rows(&self) -> (r: Vec<PlanRow<'_>>)
        ensures
            r@.len() == self.all_steps().len(),
            forall|i: int|
                0 <= i < r@.len() ==> {
                    &&& (#[trigger] r@[i]).name@ == self.all_steps()[i].name
                    &&& r@[i].evidence@ == self.all_steps()[i].evidence
                    &&& r@[i].command@ == command_text(
                        self.all_steps()[i].program,
                        self.all_steps()[i].args,
                    )
                },
    {
        let steps = self.steps();
        let ghost sv = steps@.map_values(|s: &Step| s@);
        let mut r: Vec<PlanRow<'_>> = Vec::new();
        let mut i: usize = 0;
        while i < steps.len()
            invariant
                0 <= i <= steps@.len(),
                sv == steps@.map_values(|s: &Step| s@),
                sv == self.all_steps(),
                r@.len() == i,
                forall|j: int|
                    0 <= j < i ==> {
                        &&& (#[trigger] r@[j]).name@ == sv[j].name
                        &&& r@[j].evidence@ == sv[j].evidence
                        &&& r@[j].command@ == command_text(sv[j].program, sv[j].args)
                    },
            decreases steps@.len() - i,
        {
            let step = steps[i];
            r.push(PlanRow { name: step.name, evidence: step.evidence.as_str(), command: step.command_line() });
            i = i + 1;
        }
        r
    }
}

/// Whether the mise step ran and installed.
pub open spec fn mise_installed(mise: Option<&Outcome>) -> bool {
    match mise {
        Some(o) => o.status is Installed,
        None => false,
    }
}

/// The steps that run once mise is done: under `mise exec` when mise installed,
/// so the tools it just placed are found, and as planned otherwise.
pub fn parallel_steps(steps: Vec<Step>, mise: Option<&Outcome>) -> (r: Vec<Step>)
    ensures
        r@.len() == steps@.len(),
        forall|i: int|
            0 <= i < r@.len() ==> (#[trigger] r@[i])@ == if mise_installed(mise) {
                under_mise(steps@[i]@)
            } else {
                steps@[i]@
            },
{
    let installed = match mise {
        Some(o) => match o.status {
            Status::Installed => true,
            _ => false,
        },
        None => false,
    };
    let mut r: Vec<Step> = Vec::new();
    for step in it: steps.into_iter()
        invariant
            installed == mise_installed(mise),
            r@.len() == it.index(),
            it.seq() == steps@,
            forall|i: int|
                0 <= i < r@.len() ==> (#[trigger] r@[i])@ == if installed {
                    under_mise(it.seq()[i]@)
                } else {
                    it.seq()[i]@
                },
    {
        if installed {
            r.push(through_mise(step));
        } else {
            r.push(step);
        }
    }
    r
}

/// Every step a plan for `ds` holds, in execution order.
pub open spec fn planned_steps(ds: Seq<(Toolchain, Seq<char>)>) -> Seq<StepView> {
    match planned_mise(ds) {
        Some(m) => seq![m] + planned_parallel(ds),
        None => planned_parallel(ds),
    }
}

/// The step for each of `ds`, in order.
pub open spec fn steps_for(ds: Seq<(Toolchain, Seq<char>)>) -> Seq<StepView> {
    ds.map_values(|d: (Toolchain, Seq<char>)| step_for(d.0, d.1))
}

/// A plan is empty exactly when nothing was detected.
pub proof fn lemma_plan_empty(ds: Seq<(Toolchain, Seq<char>)>)
    ensures
        (planned_mise(ds) is None && planned_parallel(ds).len() == 0) <==> ds.len() == 0,
{
}

proof fn lemma_plan_mise_first(ds: Seq<(Toolchain, Seq<char>)>)
    requires
        forall|i: int| 1 <= i < ds.len() ==> (#[trigger] ds[i]).0 != Toolchain::Mise,
    ensures
        planned_steps(ds) == steps_for(ds),
    decreases ds.len(),
{
    if ds.len() > 0 {
        let front = ds.drop_last();
        assert forall|i: int| 1 <= i < front.len() implies (#[trigger] front[i]).0 != Toolchain::Mise by {
            assert(front[i] == ds[i]);
        }
        lemma_plan_mise_first(front);
        if ds.len() == 1 {
            assert(front =~= Seq::<(Toolchain, Seq<char>)>::empty());
            if ds.last().0 == Toolchain::Mise {
                assert(planned_steps(ds) =~= steps_for(ds));
            } else {
                assert(planned_steps(ds) =~= steps_for(ds));
            }
        } else {
            assert(ds.last().0 != Toolchain::Mise);
            assert(steps_for(ds) =~= steps_for(front).push(step_for(ds.last().0, ds.last().1)));
            match planned_mise(front) {
                Some(m) => {
                    assert(planned_steps(ds) =~= planned_steps(front).push(
                        step_for(ds.last().0, ds.last().1),
                    ));
                },
                None => {
                    assert(planned_steps(ds) =~= planned_steps(front).push(
                        step_for(ds.last().0, ds.last().1),
                    ));
                },
            }
        }
    }
}

/// The plan for what detection found holds one step per detected toolchain, in
/// detection order, each carrying the evidence that selected it; mise, which
/// detection always reports first, is the step that runs first.
pub proof fn lemma_plan_follows_detection(files: Set<Seq<char>>, manifest: Option<Seq<char>>)
    ensures
        planned_steps(detected(files, manifest)) == steps_for(detected(files, manifest)),
        forall|i: int|
            0 <= i < detected(files, manifest).len() ==> (#[trigger] planned_steps(
                detected(files, manifest),
            )[i]).evidence == detected(files, manifest)[i].1,
{
    let ds = detected(files, manifest);
    lemma_detection_order(files, manifest);
    assert forall|i: int| 1 <= i < ds.len() implies (#[trigger] ds[i]).0 != Toolchain::Mise by {
        assert(rank(ds[0].0) < rank(ds[i].0));
    }
    lemma_plan_mise_first(ds);
}

/// Each argument after a space, for two lists one after the other.
proof fn lemma_spaced_concat(a: Seq<Seq<char>>, b: Seq<Seq<char>>)
    ensures
        spaced(a + b) == spaced(a) + spaced(b),
    decreases b.len(),
{
    if b.len() == 0 {
        assert(a + b =~= a);
        assert(spaced(a) + Seq::<char>::empty() =~= spaced(a));
    } else {
        assert((a + b).drop_last() =~= a + b.drop_last());
        assert((a + b).last() == b.last());
        lemma_spaced_concat(a, b.drop_last());
        assert(spaced(a + b) =~= spaced(a) + spaced(b));
    }
}

/// Running a step under mise runs the same command behind `mise exec --`.
pub proof fn lemma_mise_command(s: StepView)
    ensures
        command_text(under_mise(s).program, under_mise(s).args) == "mise exec -- "@ + command_text(
            s.program,
            s.args,
        ),
        under_mise(s).name == s.name,
        under_mise(s).evidence == s.evidence,
{
    let head: Seq<Seq<char>> = seq!["exec"@, "--"@, s.program];
    lemma_spaced_concat(head, s.args);
    reveal_strlit("mise");
    reveal_strlit("exec");
    reveal_strlit("--");
    reveal_strlit(" ");
    reveal_strlit("mise exec -- ");
    reveal_with_fuel(spaced, 4);
    assert(head.drop_last().drop_last().drop_last() =~= Seq::<Seq<char>>::empty());
    assert(spaced(head) =~= " "@ + "exec"@ + " "@ + "--"@ + " "@ + s.program);
    assert(command_text(under_mise(s).program, under_mise(s).args) =~= "mise exec -- "@
        + command_text(s.program, s.args));
}

/// `s` cut at every space, as `str::split(' ')` cuts it: `n` spaces give
/// `n + 1` pieces, some of them empty.
pub open spec fn split_spaces(s: Seq<char>) -> Seq<Seq<char>>
    decreases s.len(),
{
    if s.len() == 0 {
        seq![Seq::empty()]
    } else {
        let r = split_spaces(s.drop_last());
        if s.last() == ' ' {
            r.push(Seq::empty())
        } else {
            r.update(r.len() - 1, r.last().push(s.last()))
        }
    }
}

proof fn lemma_split_nonempty(s: Seq<char>)
    ensures
        split_spaces(s).len() >= 1,
    decreases s.len(),
{
    if s.len() > 0 {
        lemma_split_nonempty(s.drop_last());
    }
}

/// Text without a space, put after `x`, extends the last piece of `x`.
proof fn lemma_split_extend(x: Seq<char>, w: Seq<char>)
    requires
        !w.contains(' '),
    ensures
        split_spaces(x + w) == split_spaces(x).update(
            split_spaces(x).len() - 1,
            split_spaces(x).last() + w,
        ),
    decreases w.len(),
{
    lemma_split_nonempty(x);
    if w.len() == 0 {
        assert(x + w =~= x);
        assert(split_spaces(x).last() + w =~= split_spaces(x).last());
        assert(split_spaces(x).update(split_spaces(x).len() - 1, split_spaces(x).last())
            =~= split_spaces(x));
    } else {
        let v = w.drop_last();
        assert(!v.contains(' ')) by {
            if v.contains(' ') {
                let k = choose|k: int| 0 <= k < v.len() && v[k] == ' ';
                assert(w[k] == ' ');
            }
        }
        assert(w.last() != ' ') by {
            assert(w[w.len() - 1] == w.last());
        }
        lemma_split_extend(x, v);
        assert((x + w).drop_last() =~= x + v);
        assert((x + w).last() == w.last());
        assert((split_spaces(x).last() + v).push(w.last()) =~= split_spaces(x).last() + w);
        assert(split_spaces(x + w) =~= split_spaces(x).update(
            split_spaces(x).len() - 1,
            split_spaces(x).last() + w,
        ));
    }
}

/// A command whose program and arguments hold no space cuts back, at its
/// spaces, into exactly the program and then each argument, with no empty piece
/// after them.
pub proof fn lemma_command_line_splits(program: Seq<char>, args: Seq<Seq<char>>)
    requires
        !program.contains(' '),
        forall|i: int| 0 <= i < args.len() ==> !(#[trigger] args[i]).contains(' '),
    ensures
        split_spaces(command_text(program, args)) == seq![program] + args,
    decreases args.len(),
{
    if args.len() == 0 {
        lemma_split_extend(Seq::empty(), program);
        assert(Seq::<char>::empty() + program =~= program);
        assert(spaced(args) =~= Seq::<char>::empty());
        assert(command_text(program, args) =~= program);
        assert(split_spaces(Seq::<char>::empty()).last() + program =~= program);
        assert(seq![program] + args =~= seq![program]);
    } else {
        let rest = args.drop_last();
        let w = args.last();
        assert(!w.contains(' ')) by {
            assert(args[args.len() - 1] == w);
        }
        lemma_command_line_splits(program, rest);
        let c = command_text(program, rest);
        reveal_strlit(" ");
        let cs = c.push(' ');
        assert(cs.drop_last() =~= c);
        assert(cs.last() == ' ');
        assert(split_spaces(cs) == split_spaces(c).push(Seq::empty()));
        lemma_split_extend(cs, w);
        assert(Seq::<char>::empty() + w =~= w);
        assert(command_text(program, args) =~= cs + w);
        assert(split_spaces(cs + w) =~= split_spaces(c).push(w));
        assert(seq![program] + args =~= (seq![program] + rest).push(w));
    }
}

/// Every step is a program and separate arguments none of which holds a space:
/// no argument smuggles two words into one, so each command line cuts at its
/// spaces into exactly the program and the arguments the process is given.
pub proof fn lemma_step_words_hold_no_space(toolchain: Toolchain, evidence: Seq<char>)
    ensures
        !step_for(toolchain, evidence).program.contains(' '),
        forall|i: int|
            0 <= i < step_for(toolchain, evidence).args.len() ==> !(#[trigger] step_for(
                toolchain,
                evidence,
            ).args[i]).contains(' '),
        split_spaces(
            command_text(step_for(toolchain, evidence).program, step_for(toolchain, evidence).args),
        ) == seq![step_for(toolchain, evidence).program] + step_for(toolchain, evidence).args,
{
    reveal_strlit("mise");
    reveal_strlit("install");
    reveal_strlit("cargo");
    reveal_strlit("fetch");
    reveal_strlit("go");
    reveal_strlit("mod");
    reveal_strlit("download");
    reveal_strlit("bun");
    reveal_strlit("pnpm");
    reveal_strlit("yarn");
    reveal_strlit("npm");
    reveal_strlit("deno");
    reveal_strlit("clojure");
    reveal_strlit("-P");
    reveal_strlit("bb");
    reveal_strlit("prepare");
    reveal_strlit("./mvnw");
    reveal_strlit("mvn");
    reveal_strlit("-B");
    reveal_strlit("dependency:go-offline");
    reveal_strlit("./gradlew");
    reveal_strlit("gradle");
    reveal_strlit("dependencies");
    reveal_strlit("uv");
    reveal_strlit("sync");
    reveal_strlit("pip");
    reveal_strlit("-r");
    reveal_strlit("requirements.txt");
    reveal_strlit("terraform");
    reveal_strlit("init");
    reveal_strlit("-input=false");
    let s = step_for(toolchain, evidence);
    assert(!s.program.contains(' '));
    assert forall|i: int| 0 <= i < s.args.len() implies !(#[trigger] s.args[i]).contains(' ') by {
        let w = s.args[i];
        if w.contains(' ') {
            let k = choose|k: int| 0 <= k < w.len() && w[k] == ' ';
            assert(w[k] != ' ');
        }
    }
    lemma_command_line_splits(s.program, s.args);
}

/// Steps run under `mise exec` exactly when mise ran and installed: a mise that
/// was skipped (not found) or failed, or no mise step at all, leaves every step
/// as it was planned, while an installed one changes every step.
pub proof fn lemma_only_an_installed_mise_wraps(mise: Option<&Outcome>, s: StepView)
    ensures
        mise_installed(mise) <==> (mise matches Some(o) && o.status is Installed),
        (if mise_installed(mise) {
            under_mise(s)
        } else {
            s
        }) == s <==> !(mise matches Some(o) && o.status is Installed),
{
    assert(under_mise(s).args.len() == s.args.len() + 3);
}

} // verus!
