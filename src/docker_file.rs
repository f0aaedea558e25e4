//! Synthesis of multi-stage build files from a lock.
use vstd::prelude::*;

use crate::error::Error;
use crate::lock::{
    BaseConfig, DockerInstallation, Installation, InstallationConfig, LayerType,
    RpmInstallationMethod, SingleBuild, SingleVersioned, TuxWranglerConfigLocked,
};
use crate::order::{is_index_permutation, keys_view, stable_sorted_positions, texts_le};
use crate::text::{decimal, join, join_spec, lowercase_of, push_decimal, push_text, strings_view, to_lowercase};

verus! {

/// One directive of a build file.
#[derive(Debug, Clone)]
pub enum Directive {
    /// `FROM {source} as {name}`: opens the stage `name`.
    From { source: String, name: String },
    /// `COPY --from={stage} {source} {destination}`.
    CopyFrom { stage: String, source: String, destination: String },
    /// One `RUN` whose body is the commands joined by ` && \` and a newline.
    Run { commands: Vec<String> },
    /// A line given verbatim by a recipe.
    Command { line: String },
}

/// The abstract content of a directive.
pub ghost enum DirectiveView {
    From { source: Seq<char>, name: Seq<char> },
    CopyFrom { stage: Seq<char>, source: Seq<char>, destination: Seq<char> },
    Run { commands: Seq<Seq<char>> },
    Command { line: Seq<char> },
}

impl View for Directive {
    type V = DirectiveView;

    open spec fn view(&self) -> DirectiveView {
        match self {
            Directive::From { source, name } => DirectiveView::From { source: source@, name: name@ },
            Directive::CopyFrom { stage, source, destination } => DirectiveView::CopyFrom {
                stage: stage@,
                source: source@,
                destination: destination@,
            },
            Directive::Run { commands } => DirectiveView::Run { commands: strings_view(commands@) },
            Directive::Command { line } => DirectiveView::Command { line: line@ },
        }
    }
}

/// The directives' views.
pub open spec fn lines_view(ds: Seq<Directive>) -> Seq<DirectiveView> {
    ds.map_values(|d: Directive| d@)
}

/// The text of a directive.
pub open spec fn render_spec(d: DirectiveView) -> Seq<char> {
    match d {
        DirectiveView::From { source, name } => "FROM "@ + source + " as "@ + name,
        DirectiveView::CopyFrom { stage, source, destination } => "COPY --from="@ + stage + " "@ + source + " "@
            + destination,
        DirectiveView::Run { commands } => "RUN "@ + join_spec(commands, " && \\\n"@),
        DirectiveView::Command { line } => line,
    }
}

/// The text of a whole build file: one directive per line.
pub open spec fn render_all_spec(ds: Seq<DirectiveView>) -> Seq<char> {
    join_spec(ds.map_values(|d: DirectiveView| render_spec(d)), "\n"@)
}

impl Directive {
    /// The text of this directive.
    pub fn render(&self) -> (r: String)
        ensures
            r@ == render_spec(self@),
    {
        match self {
            Directive::From { source, name } => {
                let mut r = String::from_str("FROM ");
                push_text(&mut r, source.as_str());
                push_text(&mut r, " as ");
                push_text(&mut r, name.as_str());
                r
            },
            Directive::CopyFrom { stage, source, destination } => {
                let mut r = String::from_str("COPY --from=");
                push_text(&mut r, stage.as_str());
                push_text(&mut r, " ");
                push_text(&mut r, source.as_str());
                push_text(&mut r, " ");
                push_text(&mut r, destination.as_str());
                r
            },
            Directive::Run { commands } => {
                let mut r = String::from_str("RUN ");
                let body = join(commands, " && \\\n");
                push_text(&mut r, body.as_str());
                r
            },
            Directive::Command { line } => line.clone(),
        }
    }
}

/// The text of a build file: one directive per line.
pub fn render_dockerfile(lines: &Vec<Directive>) -> (r: String)
    ensures
        r@ == render_all_spec(lines_view(lines@)),
{
    let mut texts: Vec<String> = Vec::new();
    let mut i: usize = 0;
    while i < lines.len()
        invariant
            i <= lines.len(),
            texts@.len() == i,
            forall|j: int| 0 <= j < i ==> (#[trigger] texts@[j])@ == render_spec(lines@[j]@),
        decreases lines.len() - i,
    {
        texts.push(lines[i].render());
        i += 1;
    }
    assert(strings_view(texts@) == lines_view(lines@).map_values(|d: DirectiveView| render_spec(d)));
    join(&texts, "\n")
}

/// A stage of a build file with the local paths its recipe needs.
#[derive(Debug)]
pub struct Layer {
    /// The stage's name.
    pub name: String,
    /// Its directives.
    pub lines: Vec<Directive>,
    /// Local paths that the build context must hold.
    pub dependencies: Vec<String>,
}

impl Layer {
    /// A stage without local dependencies.
    pub fn new(name: String, lines: Vec<Directive>) -> (r: Layer)
        ensures
            r.name == name,
            r.lines@ == lines@,
            r.dependencies@.len() == 0,
    {
        Layer { name, lines, dependencies: Vec::new() }
    }

    /// The stage with more directives and dependencies appended.
    pub fn extend(self, layer: (Vec<Directive>, Vec<String>)) -> (r: Layer)
        ensures
            r.name == self.name,
            r.lines@ == self.lines@ + layer.0@,
            r.dependencies@ == self.dependencies@ + layer.1@,
    {
        let mut lines = self.lines;
        let mut more_lines = layer.0;
        lines.append(&mut more_lines);
        let mut dependencies = self.dependencies;
        let mut more_dependencies = layer.1;
        dependencies.append(&mut more_dependencies);
        Layer { name: self.name, lines, dependencies }
    }
}

/// The name of the first stage: the base's tag, or `temp` without one.
pub open spec fn base_stage_name(base: BaseConfig) -> Seq<char> {
    match base.tag {
        Some(t) => t@,
        None => "temp"@,
    }
}

/// The directive that opens a base's stage.
pub open spec fn base_line_spec(base: BaseConfig) -> DirectiveView {
    DirectiveView::From {
        source: base.registry@ + base.identifier.text_spec(),
        name: base_stage_name(base),
    }
}

/// The stage that starts from a base image.
pub fn base_layer(base: &BaseConfig) -> (r: Layer)
    ensures
        r.name@ == base_stage_name(*base),
        lines_view(r.lines@) == seq![base_line_spec(*base)],
        r.dependencies@.len() == 0,
{
    let layer_name = match &base.tag {
        Some(t) => t.clone(),
        None => String::from_str("temp"),
    };
    let mut image = base.registry.clone();
    let identifier = base.identifier.to_text();
    push_text(&mut image, identifier.as_str());
    let line = Directive::From { source: image, name: layer_name.clone() };
    let mut lines = Vec::new();
    lines.push(line);
    let r = Layer::new(layer_name, lines);
    assert(lines_view(r.lines@) == seq![base_line_spec(*base)]);
    r
}

/// The directives of a package-manager script: none for an empty script.
pub open spec fn run_spec(script: Seq<Seq<char>>) -> Seq<DirectiveView> {
    if script.len() == 0 {
        Seq::empty()
    } else {
        seq![DirectiveView::Run { commands: script }]
    }
}

/// A `RUN` directive for the commands, or nothing when there are none.
pub fn run_command(commands: &Vec<String>) -> (r: Option<Directive>)
    ensures
        r is None <==> commands@.len() == 0,
        r matches Some(d) ==> d@ == (DirectiveView::Run { commands: strings_view(commands@) }),
{
    if commands.len() == 0 {
        None
    } else {
        Some(Directive::Run { commands: clone_strings(commands) })
    }
}

/// A copy of a list of strings.
pub fn clone_strings(v: &Vec<String>) -> (r: Vec<String>)
    ensures
        r@ == v@,
{
    let mut r: Vec<String> = Vec::new();
    let mut i: usize = 0;
    while i < v.len()
        invariant
            i <= v.len(),
            r@ == v@.subrange(0, i as int),
        decreases v.len() - i,
    {
        r.push(v[i].clone());
        i += 1;
    }
    assert(v@.subrange(0, i as int) == v@);
    r
}

/// The directives of a package-manager recipe.
pub fn rpm_installation(rpm_config: &RpmInstallationMethod) -> (r: Vec<Directive>)
    ensures
        lines_view(r@) == run_spec(strings_view(rpm_config.script@)),
{
    let mut r = Vec::new();
    match run_command(&rpm_config.script) {
        Some(d) => r.push(d),
        None => {},
    }
    assert(lines_view(r@) == run_spec(strings_view(rpm_config.script@)));
    r
}

/// The verbatim lines of a recipe.
pub open spec fn command_lines_spec(commands: Seq<String>) -> Seq<DirectiveView> {
    commands.map_values(|c: String| DirectiveView::Command { line: c@ })
}

/// The directives and local dependencies of a verbatim recipe.
pub fn docker_installation(docker_config: &DockerInstallation) -> (r: (Vec<Directive>, Vec<String>))
    ensures
        lines_view(r.0@) == command_lines_spec(docker_config.commands@),
        r.1@ == docker_config.dependencies@,
{
    let mut lines: Vec<Directive> = Vec::new();
    let mut i: usize = 0;
    while i < docker_config.commands.len()
        invariant
            i <= docker_config.commands.len(),
            lines@.len() == i,
            forall|j: int| 0 <= j < i ==> (#[trigger] lines@[j])@ == (DirectiveView::Command { line: docker_config.commands@[j]@ }),
        decreases docker_config.commands.len() - i,
    {
        lines.push(Directive::Command { line: docker_config.commands[i].clone() });
        i += 1;
    }
    assert(lines_view(lines@) =~= command_lines_spec(docker_config.commands@));
    (lines, clone_strings(&docker_config.dependencies))
}

/// Index of the first recipe for the package manager.
pub open spec fn method_index(methods: Seq<(String, RpmInstallationMethod)>, pm: Seq<char>) -> Option<int>
    decreases methods.len(),
{
    if methods.len() == 0 {
        None
    } else {
        match method_index(methods.drop_last(), pm) {
            Some(i) => Some(i),
            None => if methods.last().0@ == pm {
                Some(methods.len() - 1)
            } else {
                None
            },
        }
    }
}

proof fn lemma_method_index(methods: Seq<(String, RpmInstallationMethod)>, pm: Seq<char>, k: int)
    requires
        0 <= k <= methods.len(),
    ensures
        method_index(methods, pm) matches Some(i) ==> 0 <= i < methods.len(),
        method_index(methods.subrange(0, k), pm) is Some ==> method_index(methods, pm) == method_index(methods.subrange(0, k), pm),
    decreases methods.len() - k,
{
    if k < methods.len() {
        assert(methods.subrange(0, k + 1).drop_last() == methods.subrange(0, k));
        lemma_method_index(methods, pm, k + 1);
    } else {
        assert(methods.subrange(0, k) == methods);
        lemma_method_index_bound(methods, pm);
    }
}

proof fn lemma_method_index_bound(methods: Seq<(String, RpmInstallationMethod)>, pm: Seq<char>)
    ensures
        method_index(methods, pm) matches Some(i) ==> 0 <= i < methods.len(),
    decreases methods.len(),
{
    if methods.len() > 0 {
        lemma_method_index_bound(methods.drop_last(), pm);
    }
}

/// What a step installs for a package manager: its directives and local
/// dependencies, or `None` when a script step has no recipe for it.
pub open spec fn install_spec(pm: Seq<char>, installation: Installation) -> Option<(Seq<DirectiveView>, Seq<Seq<char>>)> {
    match installation {
        Installation::Docker(d) => Some((command_lines_spec(d.commands@), strings_view(d.dependencies@))),
        Installation::Rpm(r) => match method_index(r.installation_methods@, pm) {
            Some(i) => Some((run_spec(strings_view(r.installation_methods@[i].1.script@)), Seq::empty())),
            None => None,
        },
    }
}

/// The directives and local dependencies of one step.
pub fn installation_inner(package_manager: &str, installation: &Installation) -> (r: Result<(Vec<Directive>, Vec<String>), Error>)
    ensures
        r is Err <==> install_spec(package_manager@, *installation) is None,
        r matches Err(e) ==> e matches Error::NoInstallationFor { package_manager: p } && p@ == package_manager@,
        r matches Ok(v) ==> install_spec(package_manager@, *installation) == Some((lines_view(v.0@), strings_view(v.1@))),
{
    match installation {
        Installation::Docker(docker_config) => Ok(docker_installation(docker_config)),
        Installation::Rpm(rpm_config) => {
            let pm = String::from_str(package_manager);
            let methods = &rpm_config.installation_methods;
            let mut i: usize = 0;
            while i < methods.len()
                invariant
                    i <= methods.len(),
                    pm@ == package_manager@,
                    *installation matches Installation::Rpm(rc) && rc.installation_methods@ == methods@,
                    method_index(methods@.subrange(0, i as int), pm@) is None,
                decreases methods.len() - i,
            {
                assert(methods@.subrange(0, i + 1).drop_last() == methods@.subrange(0, i as int));
                if methods[i].0 == pm {
                    assert(method_index(methods@.subrange(0, i + 1), pm@) == Some(i as int));
                    proof { lemma_method_index(methods@, pm@, i + 1); }
                    let lines = rpm_installation(&methods[i].1);
                    let deps: Vec<String> = Vec::new();
                    assert(strings_view(deps@) =~= Seq::<Seq<char>>::empty());
                    return Ok((lines, deps));
                }
                i += 1;
            }
            assert(methods@.subrange(0, i as int) == methods@);
            Err(Error::NoInstallationFor { package_manager: pm })
        },
    }
}

/// The stage that gives a build target its name.
pub fn tag_layer(prev_layer: &str, tag: &str) -> (r: Vec<Directive>)
    ensures
        lines_view(r@) == seq![DirectiveView::From { source: prev_layer@, name: tag@ }],
{
    let mut r = Vec::new();
    r.push(Directive::From { source: String::from_str(prev_layer), name: String::from_str(tag) });
    assert(lines_view(r@) == seq![DirectiveView::From { source: prev_layer@, name: tag@ }]);
    r
}

/// A recorded copy: `(stage, source, destination)`.
pub open spec fn triple_view(t: (String, String, String)) -> (Seq<char>, Seq<char>, Seq<char>) {
    (t.0@, t.1@, t.2@)
}

pub open spec fn triples_view(ts: Seq<(String, String, String)>) -> Seq<(Seq<char>, Seq<char>, Seq<char>)> {
    ts.map_values(|t: (String, String, String)| triple_view(t))
}

/// The sort key of a copy: stage name, then source, then destination.
pub open spec fn copy_key(t: (Seq<char>, Seq<char>, Seq<char>)) -> Seq<Seq<char>> {
    seq![t.0, t.1, t.2]
}

/// The copy that a `COPY --from` directive performs.
pub open spec fn copy_of(d: DirectiveView) -> (Seq<char>, Seq<char>, Seq<char>) {
    match d {
        DirectiveView::CopyFrom { stage, source, destination } => (stage, source, destination),
        _ => (Seq::empty(), Seq::empty(), Seq::empty()),
    }
}

/// `ys` holds the items of `xs`, each once, in sorted order.
pub open spec fn is_sorted_arrangement(
    xs: Seq<(Seq<char>, Seq<char>, Seq<char>)>,
    ys: Seq<(Seq<char>, Seq<char>, Seq<char>)>,
) -> bool {
    &&& ys.len() == xs.len()
    &&& exists|p: Seq<int>|
        #![trigger is_index_permutation(p, xs.len())]
        is_index_permutation(p, xs.len()) && forall|i: int| 0 <= i < ys.len() ==> ys[i] == xs[p[i]]
    &&& forall|i: int, j: int| 0 <= i < j < ys.len() ==> texts_le(copy_key(ys[i]), copy_key(ys[j]))
}

/// `ds` are `COPY --from` directives that perform the copies of `entries` in sorted order.
pub open spec fn copies_arranged(ds: Seq<DirectiveView>, entries: Seq<(Seq<char>, Seq<char>, Seq<char>)>) -> bool {
    &&& forall|k: int| 0 <= k < ds.len() ==> (#[trigger] ds[k]) is CopyFrom
    &&& is_sorted_arrangement(entries, ds.map_values(|d: DirectiveView| copy_of(d)))
}

/// `COPY --from` directives for the recorded copies, sorted by stage, source and destination.
pub fn copy_lines(entries: &Vec<(String, String, String)>) -> (r: Vec<Directive>)
    ensures
        copies_arranged(lines_view(r@), triples_view(entries@)),
{
    let mut keys: Vec<Vec<String>> = Vec::new();
    let mut i: usize = 0;
    while i < entries.len()
        invariant
            i <= entries.len(),
            keys@.len() == i,
            forall|j: int| 0 <= j < i ==> keys_view(keys@)[j] == copy_key(triple_view(#[trigger] entries@[j])),
        decreases entries.len() - i,
    {
        let mut key: Vec<String> = Vec::new();
        key.push(entries[i].0.clone());
        key.push(entries[i].1.clone());
        key.push(entries[i].2.clone());
        assert(strings_view(key@) =~= copy_key(triple_view(entries@[i as int])));
        keys.push(key);
        i += 1;
    }
    let order = stable_sorted_positions(&keys);
    let ghost xs = triples_view(entries@);
    let mut r: Vec<Directive> = Vec::new();
    let mut k: usize = 0;
    while k < order.len()
        invariant
            k <= order.len() == entries@.len() == keys@.len(),
            xs == triples_view(entries@),
            forall|j: int| 0 <= j < order@.len() ==> #[trigger] order@[j] < keys@.len(),
            forall|j: int| 0 <= j < entries@.len() ==> keys_view(keys@)[j] == copy_key(triple_view(#[trigger] entries@[j])),
            r@.len() == k,
            forall|j: int| 0 <= j < k ==> (#[trigger] r@[j])@ is CopyFrom && copy_of(r@[j]@) == xs[order@[j] as int],
        decreases order.len() - k,
    {
        let e = &entries[order[k]];
        r.push(Directive::CopyFrom { stage: e.0.clone(), source: e.1.clone(), destination: e.2.clone() });
        k += 1;
    }
    let ghost ys = lines_view(r@).map_values(|d: DirectiveView| copy_of(d));
    let ghost p = order@.map_values(|x: usize| x as int);
    assert(is_index_permutation(p, xs.len()));
    assert forall|i: int, j: int| 0 <= i < j < ys.len() implies texts_le(copy_key(ys[i]), copy_key(ys[j])) by {
        assert(ys[i] == xs[p[i]]);
        assert(ys[j] == xs[p[j]]);
        assert(keys_view(keys@)[order@[i] as int] == copy_key(triple_view(entries@[order@[i] as int])));
        assert(keys_view(keys@)[order@[j] as int] == copy_key(triple_view(entries@[order@[j] as int])));
    }
    r
}

/// Records the copies of a step under its stage name.
pub fn record_copies(entries: &mut Vec<(String, String, String)>, stage: &String, copy: &Vec<(String, String)>)
    ensures
        triples_view(final(entries)@) == triples_view(old(entries)@) + copy@.map_values(
            |c: (String, String)| (stage@, c.0@, c.1@),
        ),
{
    let ghost start = triples_view(entries@);
    let ghost n0 = entries@.len();
    let mut i: usize = 0;
    while i < copy.len()
        invariant
            i <= copy.len(),
            n0 == start.len(),
            entries@.len() == n0 + i,
            forall|j: int| 0 <= j < n0 ==> triple_view(#[trigger] entries@[j]) == start[j],
            forall|j: int| 0 <= j < i ==> triple_view(#[trigger] entries@[n0 + j]) == (stage@, copy@[j].0@, copy@[j].1@),
        decreases copy.len() - i,
    {
        entries.push((stage.clone(), copy[i].0.clone(), copy[i].1.clone()));
        i += 1;
    }
    assert forall|j: int| 0 <= j < entries@.len() implies triples_view(entries@)[j] == (start + copy@.map_values(
            |c: (String, String)| (stage@, c.0@, c.1@))).index(j) by {
        if j >= n0 {
            assert(triple_view(entries@[n0 + (j - n0)]) == (stage@, copy@[j - n0].0@, copy@[j - n0].1@));
        }
    }
    assert(triples_view(entries@) =~= start + copy@.map_values(|c: (String, String)| (stage@, c.0@, c.1@)));
}

/// The name of a feature's final stage.
pub open spec fn final_name_spec(previous: Seq<char>, installation: InstallationConfig) -> Seq<char> {
    lowercase_of(previous + "-"@ + installation.name@ + "-"@ + installation.version@ + "-final"@)
}

/// The name of step `i` of a feature whose final stage is `final_name`.
pub open spec fn step_name_spec(final_name: Seq<char>, i: int) -> Seq<char> {
    final_name + "-build-"@ + decimal(i as nat)
}

/// The last step before `k` of the given kind.
pub open spec fn last_of_kind(steps: Seq<crate::lock::Layer>, k: int, kind: LayerType) -> Option<int>
    decreases k,
{
    if k <= 0 {
        None
    } else if steps[k - 1].layer_type == kind {
        Some(k - 1)
    } else {
        last_of_kind(steps, k - 1, kind)
    }
}

/// The stage that a step of the given kind at `k` starts from: the last earlier
/// step of that kind, or the stage before the feature.
pub open spec fn chain_source(
    steps: Seq<crate::lock::Layer>,
    k: int,
    kind: LayerType,
    previous: Seq<char>,
    final_name: Seq<char>,
) -> Seq<char> {
    match last_of_kind(steps, k, kind) {
        Some(j) => step_name_spec(final_name, j),
        None => previous,
    }
}

/// The copies recorded by the steps before `k`.
pub open spec fn copy_entries(steps: Seq<crate::lock::Layer>, final_name: Seq<char>, k: int) -> Seq<
    (Seq<char>, Seq<char>, Seq<char>),
>
    decreases k,
{
    if k <= 0 {
        Seq::empty()
    } else {
        copy_entries(steps, final_name, k - 1) + steps[k - 1].copy@.map_values(
            |c: (String, String)| (step_name_spec(final_name, k - 1), c.0@, c.1@),
        )
    }
}

/// Stage `i` of a feature: it starts from its chain's source, copies what the
/// earlier steps recorded, then installs.
pub open spec fn step_stage_ok(
    stage: Layer,
    steps: Seq<crate::lock::Layer>,
    pm: Seq<char>,
    previous: Seq<char>,
    final_name: Seq<char>,
    i: int,
) -> bool {
    let ce = copy_entries(steps, final_name, i);
    let inst = install_spec(pm, steps[i].installation);
    let inst_lines = match inst { Some((l, _d)) => l, None => Seq::empty() };
    let inst_deps = match inst { Some((_l, d)) => d, None => Seq::empty() };
    let ls = lines_view(stage.lines@);
    &&& inst is Some
    &&& stage.name@ == step_name_spec(final_name, i)
    &&& ls.len() == 1 + ce.len() + inst_lines.len()
    &&& ls[0] == DirectiveView::From {
        source: chain_source(steps, i, steps[i].layer_type, previous, final_name),
        name: stage.name@,
    }
    &&& copies_arranged(ls.subrange(1, 1 + ce.len() as int), ce)
    &&& ls.subrange(1 + ce.len() as int, ls.len() as int) == inst_lines
    &&& strings_view(stage.dependencies@) == inst_deps
}

/// The final stage of a feature: it continues the main chain and copies
/// everything that the steps recorded.
pub open spec fn final_stage_ok(
    stage: Layer,
    steps: Seq<crate::lock::Layer>,
    previous: Seq<char>,
    final_name: Seq<char>,
) -> bool {
    let ce = copy_entries(steps, final_name, steps.len() as int);
    let ls = lines_view(stage.lines@);
    &&& stage.name@ == final_name
    &&& ls.len() == 1 + ce.len()
    &&& ls[0] == DirectiveView::From {
        source: chain_source(steps, steps.len() as int, LayerType::Actual, previous, final_name),
        name: final_name,
    }
    &&& copies_arranged(ls.subrange(1, ls.len() as int), ce)
    &&& stage.dependencies@.len() == 0
}

/// Every step of the feature can be installed with the package manager.
pub open spec fn installable(pm: Seq<char>, steps: Seq<crate::lock::Layer>) -> bool {
    forall|i: int| 0 <= i < steps.len() ==> install_spec(pm, (#[trigger] steps[i]).installation) is Some
}

/// The name of step `i`.
fn stage_name(final_name: &String, i: usize) -> (r: String)
    ensures
        r@ == step_name_spec(final_name@, i as int),
{
    let mut r = final_name.clone();
    push_text(&mut r, "-build-");
    push_decimal(&mut r, i);
    r
}

/// The name of a feature's final stage.
fn final_layer_name(previous_layer: &str, installation: &InstallationConfig) -> (r: String)
    ensures
        r@ == final_name_spec(previous_layer@, *installation),
{
    let mut s = String::from_str(previous_layer);
    push_text(&mut s, "-");
    push_text(&mut s, installation.name.as_str());
    push_text(&mut s, "-");
    push_text(&mut s, installation.version.as_str());
    push_text(&mut s, "-final");
    to_lowercase(s.as_str())
}

/// The stages of one feature: one per step, then its final stage.
pub fn installation_layers(
    package_manager: &str,
    installation: &InstallationConfig,
    previous_layer: &str,
) -> (r: Result<Vec<Layer>, Error>)
    ensures
        r is Err <==> !installable(package_manager@, installation.steps@),
        r matches Err(e) ==> e matches Error::NoInstallationFor { package_manager: p } && p@ == package_manager@,
        r matches Ok(layers) ==> {
            let steps = installation.steps@;
            let final_name = final_name_spec(previous_layer@, *installation);
            &&& layers@.len() == steps.len() + 1
            &&& forall|i: int| 0 <= i < steps.len() ==> step_stage_ok(
                #[trigger] layers@[i], steps, package_manager@, previous_layer@, final_name, i)
            &&& final_stage_ok(layers@[steps.len() as int], steps, previous_layer@, final_name)
        },
{
    let steps = &installation.steps;
    let final_name = final_layer_name(previous_layer, installation);
    let ghost fname = final_name@;
    let ghost pm = package_manager@;
    let ghost prev = previous_layer@;
    let mut entries: Vec<(String, String, String)> = Vec::new();
    let mut build_prev = String::from_str(previous_layer);
    let mut ephemeral_prev = String::from_str(previous_layer);
    let mut layers: Vec<Layer> = Vec::new();
    let mut i: usize = 0;
    while i < steps.len()
        invariant
            i <= steps.len(),
            *steps == installation.steps,
            fname == final_name@,
            fname == final_name_spec(prev, *installation),
            pm == package_manager@,
            prev == previous_layer@,
            build_prev@ == chain_source(steps@, i as int, LayerType::Actual, prev, fname),
            ephemeral_prev@ == chain_source(steps@, i as int, LayerType::Build, prev, fname),
            triples_view(entries@) == copy_entries(steps@, fname, i as int),
            layers@.len() == i,
            forall|j: int| 0 <= j < i ==> step_stage_ok(#[trigger] layers@[j], steps@, pm, prev, fname, j),
            forall|j: int| 0 <= j < i ==> install_spec(pm, (#[trigger] steps@[j]).installation) is Some,
        decreases steps.len() - i,
    {
        let step = &steps[i];
        let name = stage_name(&final_name, i);
        let ghost kind = step.layer_type;
        let src = if step.layer_type == LayerType::Actual {
            let t = build_prev;
            build_prev = name.clone();
            t
        } else {
            let t = ephemeral_prev;
            ephemeral_prev = name.clone();
            t
        };
        assert(src@ == chain_source(steps@, i as int, kind, prev, fname));
        let mut lines: Vec<Directive> = Vec::new();
        lines.push(Directive::From { source: src, name: name.clone() });
        let mut copies = copy_lines(&entries);
        let installed = installation_inner(package_manager, &step.installation);
        let (mut inst_lines, deps) = match installed {
            Ok(v) => v,
            Err(e) => {
                assert(!installable(pm, steps@));
                return Err(e);
            },
        };
        let ghost from_line = lines@;
        let ghost copy_part = copies@;
        let ghost inst_part = inst_lines@;
        lines.append(&mut copies);
        lines.append(&mut inst_lines);
        assert(lines@ == from_line + copy_part + inst_part);
        let layer = Layer { name, lines, dependencies: deps };
        proof {
            let ls = lines_view(layer.lines@);
            let ce = copy_entries(steps@, fname, i as int);
            assert(ls.subrange(1, 1 + ce.len() as int) =~= lines_view(copy_part));
            assert(ls.subrange(1 + ce.len() as int, ls.len() as int) =~= lines_view(inst_part));
            assert(step_stage_ok(layer, steps@, pm, prev, fname, i as int));
        }
        let stage_of_copies = layer.name.clone();
        layers.push(layer);
        record_copies(&mut entries, &stage_of_copies, &steps[i].copy);
        proof {
            assert(last_of_kind(steps@, i + 1, kind) == Some(i as int));
            if kind == LayerType::Actual {
                assert(last_of_kind(steps@, i + 1, LayerType::Build) == last_of_kind(steps@, i as int, LayerType::Build));
            } else {
                assert(last_of_kind(steps@, i + 1, LayerType::Actual) == last_of_kind(steps@, i as int, LayerType::Actual));
            }
        }
        i += 1;
    }
    let mut lines: Vec<Directive> = Vec::new();
    lines.push(Directive::From { source: build_prev, name: final_name.clone() });
    let mut copies = copy_lines(&entries);
    let ghost from_line = lines@;
    let ghost copy_part = copies@;
    lines.append(&mut copies);
    let last = Layer::new(final_name, lines);
    proof {
        let ls = lines_view(last.lines@);
        assert(ls.subrange(1, ls.len() as int) =~= lines_view(copy_part));
        assert(final_stage_ok(last, steps@, prev, fname));
    }
    layers.push(last);
    assert(installable(pm, steps@));
    Ok(layers)
}

impl Directive {
    /// A copy of this directive.
    pub fn duplicate(&self) -> (r: Directive)
        ensures
            r@ == self@,
    {
        match self {
            Directive::From { source, name } => Directive::From { source: source.clone(), name: name.clone() },
            Directive::CopyFrom { stage, source, destination } => Directive::CopyFrom {
                stage: stage.clone(),
                source: source.clone(),
                destination: destination.clone(),
            },
            Directive::Run { commands } => Directive::Run { commands: clone_strings(commands) },
            Directive::Command { line } => Directive::Command { line: line.clone() },
        }
    }
}

/// Some directive before position `end` opens the stage `name`.
pub open spec fn declares_before(ds: Seq<DirectiveView>, end: int, name: Seq<char>) -> bool {
    exists|j: int| 0 <= j < end && #[trigger] ds[j] is From && ds[j]->From_name == name
}

/// Every `COPY --from=X` names a stage `X` that an earlier directive opened.
pub open spec fn copies_refer_back(ds: Seq<DirectiveView>) -> bool {
    forall|k: int|
        0 <= k < ds.len() && (#[trigger] ds[k]) is CopyFrom ==> declares_before(ds, k, ds[k]->CopyFrom_stage)
}

/// No two directives open stages of the same name.
pub open spec fn unique_stage_names(ds: Seq<DirectiveView>) -> bool {
    forall|j: int, k: int|
        0 <= j < k < ds.len() && (#[trigger] ds[j]) is From && (#[trigger] ds[k]) is From ==> ds[j]->From_name
            != ds[k]->From_name
}

/// A stage opens with a directive that names it and opens no other stage.
pub open spec fn opens_own_stage(stage: Layer) -> bool {
    let ls = lines_view(stage.lines@);
    &&& ls.len() >= 1
    &&& ls[0] is From
    &&& ls[0]->From_name == stage.name@
    &&& forall|k: int| 1 <= k < ls.len() ==> !((#[trigger] ls[k]) is From)
}

/// Each stage opens itself, and copies only from stages earlier in the list.
pub open spec fn stages_well_formed(layers: Seq<Layer>) -> bool {
    &&& forall|i: int| 0 <= i < layers.len() ==> opens_own_stage(#[trigger] layers[i])
    &&& forall|i: int, k: int|
        0 <= i < layers.len() && 0 <= k < lines_view(layers[i].lines@).len() && (#[trigger] lines_view(
            layers[i].lines@,
        )[k]) is CopyFrom ==> exists|j: int|
            0 <= j < i && (#[trigger] layers[j]).name@ == lines_view(layers[i].lines@)[k]->CopyFrom_stage
}

/// What `installation_layers` returns for a feature.
pub open spec fn feature_stages_ok(
    layers: Seq<Layer>,
    pm: Seq<char>,
    installation: InstallationConfig,
    previous: Seq<char>,
) -> bool {
    let steps = installation.steps@;
    let final_name = final_name_spec(previous, installation);
    &&& layers.len() == steps.len() + 1
    &&& forall|i: int| 0 <= i < steps.len() ==> step_stage_ok(#[trigger] layers[i], steps, pm, previous, final_name, i)
    &&& final_stage_ok(layers[steps.len() as int], steps, previous, final_name)
}

proof fn lemma_copy_entry_stage(steps: Seq<crate::lock::Layer>, final_name: Seq<char>, k: int, m: int) -> (j: int)
    requires
        0 <= m < copy_entries(steps, final_name, k).len(),
    ensures
        0 <= j < k,
        copy_entries(steps, final_name, k)[m].0 == step_name_spec(final_name, j),
    decreases k,
{
    if k <= 0 {
        0
    } else {
        let before = copy_entries(steps, final_name, k - 1);
        if m < before.len() {
            lemma_copy_entry_stage(steps, final_name, k - 1, m)
        } else {
            k - 1
        }
    }
}

proof fn lemma_arranged_copy(ds: Seq<DirectiveView>, ce: Seq<(Seq<char>, Seq<char>, Seq<char>)>, k: int) -> (m: int)
    requires
        copies_arranged(ds, ce),
        0 <= k < ds.len(),
    ensures
        0 <= m < ce.len(),
        ds[k] is CopyFrom,
        ds[k]->CopyFrom_stage == ce[m].0,
{
    let ys = ds.map_values(|d: DirectiveView| copy_of(d));
    let p = choose|p: Seq<int>| is_index_permutation(p, ce.len()) && forall|i: int| 0 <= i < ys.len() ==> ys[i] == ce[p[i]];
    assert(ds[k] is CopyFrom);
    assert(ys[k] == ce[p[k]]);
    p[k]
}

proof fn lemma_install_lines_plain(pm: Seq<char>, installation: Installation)
    requires
        install_spec(pm, installation) is Some,
    ensures
        install_spec(pm, installation) matches Some((l, _d)) && forall|k: int|
            0 <= k < l.len() ==> !((#[trigger] l[k]) is From) && !(l[k] is CopyFrom),
{
}

/// The stages of a feature are well formed.
pub proof fn lemma_feature_stages_well_formed(layers: Seq<Layer>, pm: Seq<char>, installation: InstallationConfig, previous: Seq<char>)
    requires
        feature_stages_ok(layers, pm, installation, previous),
    ensures
        stages_well_formed(layers),
        layers.last().name@ == final_name_spec(previous, installation),
{
    let steps = installation.steps@;
    let n = steps.len() as int;
    let fname = final_name_spec(previous, installation);
    assert forall|i: int| 0 <= i < layers.len() implies opens_own_stage(#[trigger] layers[i]) by {
        let ls = lines_view(layers[i].lines@);
        if i < n {
            assert(step_stage_ok(layers[i], steps, pm, previous, fname, i));
            let ce = copy_entries(steps, fname, i);
            lemma_install_lines_plain(pm, steps[i].installation);
            assert forall|k: int| 1 <= k < ls.len() implies !((#[trigger] ls[k]) is From) by {
                if k < 1 + ce.len() {
                    assert(ls.subrange(1, 1 + ce.len() as int)[k - 1] == ls[k]);
                } else {
                    assert(ls.subrange(1 + ce.len() as int, ls.len() as int)[k - 1 - ce.len()] == ls[k]);
                }
            }
        } else {
            assert forall|k: int| 1 <= k < ls.len() implies !((#[trigger] ls[k]) is From) by {
                assert(ls.subrange(1, ls.len() as int)[k - 1] == ls[k]);
            }
        }
    }
    assert forall|i: int, k: int|
        0 <= i < layers.len() && 0 <= k < lines_view(layers[i].lines@).len() && (#[trigger] lines_view(
            layers[i].lines@,
        )[k]) is CopyFrom implies exists|j: int|
            0 <= j < i && (#[trigger] layers[j]).name@ == lines_view(layers[i].lines@)[k]->CopyFrom_stage by {
        let ls = lines_view(layers[i].lines@);
        let ce = copy_entries(steps, fname, i);
        if i < n {
            assert(step_stage_ok(layers[i], steps, pm, previous, fname, i));
            lemma_install_lines_plain(pm, steps[i].installation);
            assert(k >= 1);
            if k < 1 + ce.len() {
                let cs = ls.subrange(1, 1 + ce.len() as int);
                assert(cs[k - 1] == ls[k]);
                let m = lemma_arranged_copy(cs, ce, k - 1);
                let j = lemma_copy_entry_stage(steps, fname, i, m);
                assert(step_stage_ok(layers[j], steps, pm, previous, fname, j));
                assert(layers[j].name@ == ls[k]->CopyFrom_stage);
            } else {
                assert(ls.subrange(1 + ce.len() as int, ls.len() as int)[k - 1 - ce.len()] == ls[k]);
            }
        } else {
            assert(i == n);
            let cs = ls.subrange(1, ls.len() as int);
            assert(k >= 1);
            assert(cs[k - 1] == ls[k]);
            let m = lemma_arranged_copy(cs, ce, k - 1);
            let j = lemma_copy_entry_stage(steps, fname, i, m);
            assert(step_stage_ok(layers[j], steps, pm, previous, fname, j));
            assert(layers[j].name@ == ls[k]->CopyFrom_stage);
        }
    }
}

/// Appends the directives of a stage.
fn append_lines(out: &mut Vec<Directive>, lines: &Vec<Directive>)
    ensures
        lines_view(final(out)@) == lines_view(old(out)@) + lines_view(lines@),
{
    let ghost start = lines_view(out@);
    let ghost n0 = out@.len();
    let mut i: usize = 0;
    while i < lines.len()
        invariant
            i <= lines.len(),
            n0 == start.len(),
            out@.len() == n0 + i,
            forall|j: int| 0 <= j < n0 ==> (#[trigger] out@[j])@ == start[j],
            forall|j: int| 0 <= j < i ==> (#[trigger] out@[n0 + j])@ == lines@[j]@,
        decreases lines.len() - i,
    {
        out.push(lines[i].duplicate());
        i += 1;
    }
    assert forall|j: int| 0 <= j < out@.len() implies lines_view(out@)[j] == (start + lines_view(lines@))[j] by {
        if j >= n0 {
            assert(out@[n0 + (j - n0)]@ == lines@[j - n0]@);
        }
    }
    assert(lines_view(out@) =~= start + lines_view(lines@));
}

/// Appending a stage whose copies refer to stages already opened keeps every
/// copy referring back, and opens the stage.
proof fn lemma_append_stage(before: Seq<DirectiveView>, stage: Layer)
    requires
        copies_refer_back(before),
        opens_own_stage(stage),
        forall|k: int|
            0 <= k < lines_view(stage.lines@).len() && (#[trigger] lines_view(stage.lines@)[k]) is CopyFrom
                ==> declares_before(before, before.len() as int, lines_view(stage.lines@)[k]->CopyFrom_stage),
    ensures
        copies_refer_back(before + lines_view(stage.lines@)),
        declares_before(before + lines_view(stage.lines@), (before + lines_view(stage.lines@)).len() as int, stage.name@),
        forall|name: Seq<char>| declares_before(before, before.len() as int, name) ==> declares_before(
            before + lines_view(stage.lines@), (before + lines_view(stage.lines@)).len() as int, name),
{
    let ls = lines_view(stage.lines@);
    let all = before + ls;
    assert forall|k: int| 0 <= k < all.len() && (#[trigger] all[k]) is CopyFrom implies declares_before(all, k, all[k]->CopyFrom_stage) by {
        if k < before.len() {
            assert(all[k] == before[k]);
            assert(declares_before(before, k, before[k]->CopyFrom_stage));
            let j = choose|j: int| 0 <= j < k && #[trigger] before[j] is From && before[j]->From_name == before[k]->CopyFrom_stage;
            assert(all[j] == before[j]);
        } else {
            assert(all[k] == ls[k - before.len()]);
            assert(declares_before(before, before.len() as int, ls[k - before.len()]->CopyFrom_stage));
            let j = choose|j: int| 0 <= j < before.len() && #[trigger] before[j] is From && before[j]->From_name == ls[k - before.len()]->CopyFrom_stage;
            assert(all[j] == before[j]);
        }
    }
    assert(all[before.len() as int] == ls[0]);
    assert forall|name: Seq<char>| declares_before(before, before.len() as int, name) implies declares_before(all, all.len() as int, name) by {
        let j = choose|j: int| 0 <= j < before.len() && #[trigger] before[j] is From && before[j]->From_name == name;
        assert(all[j] == before[j]);
    }
}

/// Adds the paths that are not there yet.
fn add_dependencies(deps: &mut Vec<String>, more: &Vec<String>)
    requires
        strings_view(old(deps)@).no_duplicates(),
    ensures
        strings_view(final(deps)@).no_duplicates(),
        strings_view(final(deps)@).to_set() == strings_view(old(deps)@).to_set() + strings_view(more@).to_set(),
{
    let ghost start = strings_view(deps@).to_set();
    let mut i: usize = 0;
    while i < more.len()
        invariant
            i <= more.len(),
            strings_view(deps@).no_duplicates(),
            strings_view(deps@).to_set() == start + strings_view(more@).subrange(0, i as int).to_set(),
        decreases more.len() - i,
    {
        let mut found = false;
        let mut j: usize = 0;
        while j < deps.len()
            invariant
                i < more.len(),
                j <= deps.len(),
                found <==> exists|t: int| 0 <= t < j && strings_view(deps@)[t] == more@[i as int]@,
            decreases deps.len() - j,
        {
            assert(strings_view(deps@)[j as int] == deps@[j as int]@);
            if deps[j] == more[i] {
                found = true;
            }
            j += 1;
        }
        let ghost old_deps = strings_view(deps@);
        proof {
            old_deps.lemma_push_to_set_commute(more@[i as int]@);
            strings_view(more@).subrange(0, i as int).lemma_push_to_set_commute(more@[i as int]@);
        }
        if !found {
            deps.push(more[i].clone());
            assert(strings_view(deps@) =~= old_deps.push(more@[i as int]@));
        } else {
            assert(old_deps.contains(more@[i as int]@));
        }
        assert(strings_view(more@).subrange(0, i + 1) =~= strings_view(more@).subrange(0, i as int).push(more@[i as int]@));
        assert(strings_view(deps@).to_set() =~= start + strings_view(more@).subrange(0, i + 1).to_set());
        i += 1;
    }
    assert(strings_view(more@).subrange(0, i as int) == strings_view(more@));
}

/// The directives of a list of stages, in order.
pub open spec fn stage_lines(layers: Seq<Layer>) -> Seq<DirectiveView>
    decreases layers.len(),
{
    if layers.len() == 0 {
        Seq::empty()
    } else {
        stage_lines(layers.drop_last()) + lines_view(layers.last().lines@)
    }
}

/// The local dependencies of a list of stages, in order.
pub open spec fn stage_deps(layers: Seq<Layer>) -> Seq<Seq<char>>
    decreases layers.len(),
{
    if layers.len() == 0 {
        Seq::empty()
    } else {
        stage_deps(layers.drop_last()) + strings_view(layers.last().dependencies@)
    }
}

/// The directives of the features' stage lists, in order.
pub open spec fn group_lines(groups: Seq<Seq<Layer>>) -> Seq<DirectiveView>
    decreases groups.len(),
{
    if groups.len() == 0 {
        Seq::empty()
    } else {
        group_lines(groups.drop_last()) + stage_lines(groups.last())
    }
}

/// The local dependencies of the features' stage lists, in order.
pub open spec fn group_deps(groups: Seq<Seq<Layer>>) -> Seq<Seq<char>>
    decreases groups.len(),
{
    if groups.len() == 0 {
        Seq::empty()
    } else {
        group_deps(groups.drop_last()) + stage_deps(groups.last())
    }
}

/// The stage that feature `k` builds on: the base's stage for the first
/// feature, otherwise the final stage of the feature before.
pub open spec fn stage_before(first_stage: Seq<char>, groups: Seq<Seq<Layer>>, k: int) -> Seq<char> {
    if k == 0 {
        first_stage
    } else {
        groups[k - 1].last().name@
    }
}

/// `groups[k]` are the stages of feature `features[k]`, each feature built on the one before.
pub open spec fn plan_ok(
    config: TuxWranglerConfigLocked,
    pm: Seq<char>,
    first_stage: Seq<char>,
    features: Seq<SingleVersioned>,
    groups: Seq<Seq<Layer>>,
) -> bool {
    &&& groups.len() == features.len()
    &&& forall|k: int|
        0 <= k < features.len() ==> (crate::lock::feature_index(config.features@, #[trigger] features[k]) matches Some(
            fi,
        ) && feature_stages_ok(groups[k], pm, config.features@[fi], stage_before(first_stage, groups, k)))
}

/// Every feature is in the lock and can be installed with the package manager.
pub open spec fn features_available(config: TuxWranglerConfigLocked, pm: Seq<char>, features: Seq<SingleVersioned>) -> bool {
    forall|k: int|
        0 <= k < features.len() ==> (crate::lock::feature_index(config.features@, #[trigger] features[k]) matches Some(
            fi,
        ) && installable(pm, config.features@[fi].steps@))
}

/// Whether a build of the base with the features can be planned from the lock.
pub open spec fn plannable(config: TuxWranglerConfigLocked, base: SingleVersioned, features: Seq<SingleVersioned>) -> bool {
    match crate::lock::base_index(config.bases@, base) {
        Some(bi) => features_available(config, config.bases@[bi].package_manager@, features),
        None => false,
    }
}

proof fn lemma_stage_lines_step(layers: Seq<Layer>, i: int)
    requires
        0 <= i < layers.len(),
    ensures
        stage_lines(layers.subrange(0, i + 1)) == stage_lines(layers.subrange(0, i)) + lines_view(layers[i].lines@),
        stage_deps(layers.subrange(0, i + 1)) == stage_deps(layers.subrange(0, i)) + strings_view(layers[i].dependencies@),
{
    assert(layers.subrange(0, i + 1).drop_last() =~= layers.subrange(0, i));
}

/// The build file for one base with features, built in the order given: the
/// base's stage, then the stages of each feature in turn. No stage names the
/// build target.
pub fn create_dockerfile_for(
    config: &TuxWranglerConfigLocked,
    base: &SingleVersioned,
    features: &Vec<SingleVersioned>,
) -> (r: Result<(Vec<Directive>, Vec<String>), Error>)
    ensures
        r is Err <==> !plannable(*config, *base, features@),
        r matches Err(e) ==> (e is MissingBase <==> crate::lock::base_index(config.bases@, *base) is None),
        r matches Ok((lines, deps)) ==> {
            &&& crate::lock::base_index(config.bases@, *base) matches Some(bi)
            &&& exists|groups: Seq<Seq<Layer>>|
                #![trigger plan_ok(*config, config.bases@[bi].package_manager@, base_stage_name(config.bases@[bi]), features@, groups)]
                plan_ok(*config, config.bases@[bi].package_manager@, base_stage_name(config.bases@[bi]), features@, groups)
                && lines_view(lines@) == seq![base_line_spec(config.bases@[bi])] + group_lines(groups)
                && strings_view(deps@).to_set() == group_deps(groups).to_set()
            &&& strings_view(deps@).no_duplicates()
            &&& copies_refer_back(lines_view(lines@))
        },
{
    let base_config = match config.base(base) {
        Some(b) => b,
        None => {
            return Err(Error::MissingBase { name: base.name.clone(), version: base.version.clone() });
        },
    };
    let ghost bi = crate::lock::base_index(config.bases@, *base)->0;
    proof { crate::lock::lemma_base_index(config.bases@, *base); }
    let first = base_layer(base_config);
    let mut lines: Vec<Directive> = Vec::new();
    append_lines(&mut lines, &first.lines);
    let package_manager = base_config.package_manager.clone();
    let ghost pm = package_manager@;
    let ghost first_name = first.name@;
    let mut prev_layer = first.name;
    let mut dependencies: Vec<String> = Vec::new();
    let ghost mut groups: Seq<Seq<Layer>> = Seq::empty();
    proof {
        let ls = lines_view(lines@);
        assert(ls =~= seq![base_line_spec(config.bases@[bi])]);
        assert(ls[0] is From);
        assert(declares_before(ls, ls.len() as int, prev_layer@));
        assert(strings_view(dependencies@) =~= Seq::<Seq<char>>::empty());
        assert(group_deps(groups).to_set() =~= Set::<Seq<char>>::empty());
    }
    let mut k: usize = 0;
    while k < features.len()
        invariant
            k <= features.len(),
            bi == crate::lock::base_index(config.bases@, *base)->0,
            0 <= bi < config.bases@.len(),
            crate::lock::base_index(config.bases@, *base) is Some,
            pm == config.bases@[bi].package_manager@,
            pm == package_manager@,
            first_name == base_stage_name(config.bases@[bi]),
            groups.len() == k,
            plan_ok(*config, pm, first_name, features@.subrange(0, k as int), groups),
            features_available(*config, pm, features@.subrange(0, k as int)),
            prev_layer@ == stage_before(first_name, groups, k as int),
            lines_view(lines@) == seq![base_line_spec(config.bases@[bi])] + group_lines(groups),
            copies_refer_back(lines_view(lines@)),
            declares_before(lines_view(lines@), lines@.len() as int, prev_layer@),
            strings_view(dependencies@).no_duplicates(),
            strings_view(dependencies@).to_set() == group_deps(groups).to_set(),
        decreases features.len() - k,
    {
        let feature = &features[k];
        let installation = match config.feature(feature) {
            Some(f) => f,
            None => {
                assert(features@.subrange(0, k + 1)[k as int] == features@[k as int]);
                return Err(Error::MissingFeature { name: feature.name.clone(), version: feature.version.clone() });
            },
        };
        let feature_layers = match installation_layers(package_manager.as_str(), installation, prev_layer.as_str()) {
            Ok(l) => l,
            Err(e) => {
                assert(!features_available(*config, pm, features@)) by {
                    assert(features@[k as int] == *feature);
                }
                return Err(e);
            },
        };
        let ghost fl = feature_layers@;
        proof { lemma_feature_stages_well_formed(fl, pm, *installation, prev_layer@); }
        let ghost before = lines_view(lines@);
        let ghost deps_before = strings_view(dependencies@).to_set();
        let mut i: usize = 0;
        while i < feature_layers.len()
            invariant
                i <= feature_layers.len(),
                fl == feature_layers@,
                stages_well_formed(fl),
                lines_view(lines@) == before + stage_lines(fl.subrange(0, i as int)),
                copies_refer_back(lines_view(lines@)),
                forall|j: int| 0 <= j < i ==> declares_before(lines_view(lines@), lines@.len() as int, (#[trigger] fl[j]).name@),
                forall|name: Seq<char>| declares_before(before, before.len() as int, name) ==> declares_before(lines_view(lines@), lines@.len() as int, name),
                strings_view(dependencies@).no_duplicates(),
                strings_view(dependencies@).to_set() == deps_before + stage_deps(fl.subrange(0, i as int)).to_set(),
            decreases feature_layers.len() - i,
        {
            let ghost cur = lines_view(lines@);
            proof {
                let ls = lines_view(fl[i as int].lines@);
                assert forall|k2: int| 0 <= k2 < ls.len() && (#[trigger] ls[k2]) is CopyFrom implies declares_before(cur, cur.len() as int, ls[k2]->CopyFrom_stage) by {
                    let j = choose|j: int| 0 <= j < i && (#[trigger] fl[j]).name@ == lines_view(fl[i as int].lines@)[k2]->CopyFrom_stage;
                    assert(declares_before(cur, cur.len() as int, fl[j].name@));
                }
                lemma_append_stage(cur, fl[i as int]);
                lemma_stage_lines_step(fl, i as int);
            }
            append_lines(&mut lines, &feature_layers[i].lines);
            let ghost dep_set = strings_view(dependencies@).to_set();
            add_dependencies(&mut dependencies, &feature_layers[i].dependencies);
            proof {
                assert(lines_view(lines@) == cur + lines_view(fl[i as int].lines@));
                assert(lines_view(lines@) =~= before + stage_lines(fl.subrange(0, i + 1)));
                vstd::seq_lib::seq_to_set_distributes_over_add(stage_deps(fl.subrange(0, i as int)), strings_view(fl[i as int].dependencies@));
                assert(strings_view(dependencies@).to_set() =~= deps_before + stage_deps(fl.subrange(0, i + 1)).to_set());
            }
            i += 1;
        }
        proof {
            assert(fl.subrange(0, i as int) == fl);
            assert(groups.push(fl).drop_last() =~= groups);
            vstd::seq_lib::seq_to_set_distributes_over_add(group_deps(groups), stage_deps(fl));
            assert(fl.last() == fl[fl.len() - 1]);
        }
        prev_layer = feature_layers[feature_layers.len() - 1].name.clone();
        proof {
            let old_groups = groups;
            groups = groups.push(fl);
            let fs = features@.subrange(0, k + 1);
            assert forall|k2: int| 0 <= k2 < fs.len() implies (crate::lock::feature_index(config.features@, #[trigger] fs[k2]) matches Some(
                fi,
            ) && feature_stages_ok(groups[k2], pm, config.features@[fi], stage_before(first_name, groups, k2))) by {
                if k2 < k {
                    assert(fs[k2] == features@.subrange(0, k as int)[k2]);
                    assert(stage_before(first_name, groups, k2) == stage_before(first_name, old_groups, k2));
                } else {
                    assert(fs[k2] == *feature);
                }
            }
            assert forall|k2: int| 0 <= k2 < fs.len() implies (crate::lock::feature_index(config.features@, #[trigger] fs[k2]) matches Some(
                fi,
            ) && installable(pm, config.features@[fi].steps@)) by {
                if k2 < k {
                    assert(fs[k2] == features@.subrange(0, k as int)[k2]);
                } else {
                    assert(fs[k2] == *feature);
                }
            }
            assert(group_deps(groups).to_set() =~= group_deps(old_groups).to_set() + stage_deps(fl).to_set());
        }
        k += 1;
    }
    proof {
        assert(features@.subrange(0, k as int) == features@);
    }
    Ok((lines, dependencies))
}

/// The name of the stage that a build's base opens, when the base is in the lock.
pub open spec fn base_stage_of(config: TuxWranglerConfigLocked, base: SingleVersioned) -> Option<Seq<char>> {
    match crate::lock::base_index(config.bases@, base) {
        Some(bi) => Some(base_stage_name(config.bases@[bi])),
        None => None,
    }
}

/// Two different bases would open stages of the same name.
pub open spec fn stage_conflict(config: TuxWranglerConfigLocked, a: SingleVersioned, b: SingleVersioned) -> bool {
    &&& base_stage_of(config, a) is Some
    &&& base_stage_of(config, a) == base_stage_of(config, b)
    &&& !a.same(&b)
}

/// Whether the lock's builds can all be planned in one build file.
pub open spec fn dockerfile_possible(config: TuxWranglerConfigLocked) -> bool {
    &&& forall|i: int|
        0 <= i < config.builds@.len() ==> plannable(config, (#[trigger] config.builds@[i]).base, config.builds@[i].features@)
    &&& forall|i: int, j: int|
        0 <= i < j < config.builds@.len() ==> !stage_conflict(config, (#[trigger] config.builds@[i]).base, (#[trigger] config.builds@[j]).base)
}

/// The directives and the stage names emitted so far agree: every emitted
/// stage is recorded, every recorded name was emitted, no name twice, and every
/// copy refers back.
pub open spec fn emitted_ok(ds: Seq<DirectiveView>, seen: Seq<Seq<char>>) -> bool {
    &&& unique_stage_names(ds)
    &&& copies_refer_back(ds)
    &&& forall|t: int| 0 <= t < seen.len() ==> declares_before(ds, ds.len() as int, #[trigger] seen[t])
    &&& forall|j: int| 0 <= j < ds.len() && (#[trigger] ds[j]) is From ==> seen.contains(ds[j]->From_name)
}

/// Emitting one more stage: left out when a stage of its name was emitted.
pub open spec fn emit_step(state: (Seq<DirectiveView>, Seq<Seq<char>>), stage: Layer) -> (Seq<DirectiveView>, Seq<Seq<char>>) {
    if state.1.contains(stage.name@) {
        state
    } else {
        (state.0 + lines_view(stage.lines@), state.1.push(stage.name@))
    }
}

/// The directives and stage names emitted for a list of stages, each stage
/// left out when a stage of its name was emitted before it.
pub open spec fn emit_unseen(stages: Seq<Layer>) -> (Seq<DirectiveView>, Seq<Seq<char>>)
    decreases stages.len(),
{
    if stages.len() == 0 {
        (Seq::empty(), Seq::empty())
    } else {
        emit_step(emit_unseen(stages.drop_last()), stages.last())
    }
}

/// The stage lists one after the other.
pub open spec fn flat(groups: Seq<Seq<Layer>>) -> Seq<Layer>
    decreases groups.len(),
{
    if groups.len() == 0 {
        Seq::empty()
    } else {
        flat(groups.drop_last()) + groups.last()
    }
}

/// The stages of one build: its base's stage, the stages of its features in
/// turn, and a last stage named after its target.
pub open spec fn build_stages_ok(config: TuxWranglerConfigLocked, build: SingleBuild, stages: Seq<Layer>) -> bool {
    match crate::lock::base_index(config.bases@, build.base) {
        Some(bi) => {
            let bc = config.bases@[bi];
            let first = base_stage_name(bc);
            exists|groups: Seq<Seq<Layer>>|
                #![trigger plan_ok(config, bc.package_manager@, first, build.features@, groups)]
                plan_ok(config, bc.package_manager@, first, build.features@, groups)
                && stages.len() == flat(groups).len() + 2
                && stages[0].name@ == first
                && lines_view(stages[0].lines@) == seq![base_line_spec(bc)]
                && stages.subrange(1, stages.len() - 1) == flat(groups)
                && stages.last().name@ == build.target@
                && lines_view(stages.last().lines@) == seq![DirectiveView::From {
                    source: stage_before(first, groups, groups.len() as int),
                    name: build.target@,
                }]
        },
        None => false,
    }
}

fn contains_text(names: &Vec<String>, name: &String) -> (r: bool)
    ensures
        r == strings_view(names@).contains(name@),
{
    let mut i: usize = 0;
    while i < names.len()
        invariant
            i <= names.len(),
            forall|j: int| 0 <= j < i ==> strings_view(names@)[j] != name@,
        decreases names.len() - i,
    {
        if names[i] == *name {
            assert(strings_view(names@)[i as int] == name@);
            return true;
        }
        i += 1;
    }
    false
}

/// Emits a stage unless a stage of its name was emitted before.
fn emit_once(lines: &mut Vec<Directive>, seen: &mut Vec<String>, deps: &mut Vec<String>, layer: &Layer)
    requires
        emitted_ok(lines_view(old(lines)@), strings_view(old(seen)@)),
        opens_own_stage(*layer),
        forall|k: int|
            0 <= k < lines_view(layer.lines@).len() && (#[trigger] lines_view(layer.lines@)[k]) is CopyFrom
                ==> strings_view(old(seen)@).contains(lines_view(layer.lines@)[k]->CopyFrom_stage),
        strings_view(old(deps)@).no_duplicates(),
    ensures
        emitted_ok(lines_view(final(lines)@), strings_view(final(seen)@)),
        (lines_view(final(lines)@), strings_view(final(seen)@)) == emit_step((lines_view(old(lines)@), strings_view(old(seen)@)), *layer),
        strings_view(final(seen)@).contains(layer.name@),
        forall|name: Seq<char>| strings_view(old(seen)@).contains(name) ==> strings_view(final(seen)@).contains(name),
        strings_view(final(deps)@).no_duplicates(),
{
    if contains_text(seen, &layer.name) {
        return;
    }
    let ghost before = lines_view(lines@);
    let ghost seen_before = strings_view(seen@);
    proof {
        assert forall|k: int|
            0 <= k < lines_view(layer.lines@).len() && (#[trigger] lines_view(layer.lines@)[k]) is CopyFrom
                implies declares_before(before, before.len() as int, lines_view(layer.lines@)[k]->CopyFrom_stage) by {
            let t = choose|t: int| 0 <= t < seen_before.len() && seen_before[t] == lines_view(layer.lines@)[k]->CopyFrom_stage;
            assert(declares_before(before, before.len() as int, seen_before[t]));
        }
        lemma_append_stage(before, *layer);
    }
    append_lines(lines, &layer.lines);
    add_dependencies(deps, &layer.dependencies);
    seen.push(layer.name.clone());
    proof {
        let ds = lines_view(lines@);
        let ls = lines_view(layer.lines@);
        let sn = strings_view(seen@);
        assert(ds == before + ls);
        assert(sn =~= seen_before.push(layer.name@));
        assert forall|j: int, k: int|
            0 <= j < k < ds.len() && (#[trigger] ds[j]) is From && (#[trigger] ds[k]) is From implies ds[j]->From_name
                != ds[k]->From_name by {
            if k >= before.len() {
                assert(ds[k] == ls[k - before.len()]);
                assert(k == before.len());
                if j < before.len() {
                    assert(ds[j] == before[j]);
                    assert(seen_before.contains(before[j]->From_name));
                }
            } else {
                assert(ds[j] == before[j] && ds[k] == before[k]);
            }
        }
        assert forall|t: int| 0 <= t < sn.len() implies declares_before(ds, ds.len() as int, #[trigger] sn[t]) by {
            if t < seen_before.len() {
                assert(sn[t] == seen_before[t]);
                assert(declares_before(before, before.len() as int, seen_before[t]));
            }
        }
        assert forall|j: int| 0 <= j < ds.len() && (#[trigger] ds[j]) is From implies sn.contains(ds[j]->From_name) by {
            if j < before.len() {
                assert(ds[j] == before[j]);
                assert(seen_before.contains(before[j]->From_name));
                let t = choose|t: int| 0 <= t < seen_before.len() && seen_before[t] == before[j]->From_name;
                assert(sn[t] == seen_before[t]);
            } else {
                assert(ds[j] == ls[j - before.len()]);
                assert(j - before.len() == 0);
                assert(sn[sn.len() - 1] == layer.name@);
            }
        }
        assert(sn[sn.len() - 1] == layer.name@);
        assert forall|name: Seq<char>| seen_before.contains(name) implies sn.contains(name) by {
            let t = choose|t: int| 0 <= t < seen_before.len() && seen_before[t] == name;
            assert(sn[t] == seen_before[t]);
        }
    }
}

/// The build file for every build of the lock: each build's stages in turn, a
/// stage whose name was already emitted left out, and a last stage per build
/// named after its target. Fails when a build cannot be planned, and when two
/// different bases would open stages of the same name.
pub fn create_dockerfile(config: &TuxWranglerConfigLocked) -> (r: Result<(Vec<Directive>, Vec<String>), Error>)
    ensures
        r is Err <==> !dockerfile_possible(*config),
        r matches Ok((lines, deps)) ==> {
            &&& exists|parts: Seq<Seq<Layer>>|
                #![trigger flat(parts)]
                parts.len() == config.builds@.len()
                && (forall|i: int| 0 <= i < parts.len() ==> build_stages_ok(*config, config.builds@[i], #[trigger] parts[i]))
                && lines_view(lines@) == emit_unseen(flat(parts)).0
            &&& unique_stage_names(lines_view(lines@))
            &&& copies_refer_back(lines_view(lines@))
            &&& strings_view(deps@).no_duplicates()
            &&& forall|i: int|
                0 <= i < config.builds@.len() ==> declares_before(
                    lines_view(lines@),
                    lines@.len() as int,
                    (#[trigger] config.builds@[i]).target@,
                ) && declares_before(lines_view(lines@), lines@.len() as int, base_stage_of(*config, config.builds@[i].base)->0)
        },
{
    let builds = &config.builds;
    let mut lines: Vec<Directive> = Vec::new();
    let mut seen: Vec<String> = Vec::new();
    let mut dependencies: Vec<String> = Vec::new();
    let mut base_stages: Vec<(String, SingleVersioned)> = Vec::new();
    proof {
        assert(strings_view(dependencies@) =~= Seq::<Seq<char>>::empty());
        assert(lines_view(lines@) =~= Seq::<DirectiveView>::empty());
        assert(strings_view(seen@) =~= Seq::<Seq<char>>::empty());
    }
    let ghost mut parts: Seq<Seq<Layer>> = Seq::empty();
    let mut b: usize = 0;
    while b < builds.len()
        invariant
            b <= builds.len(),
            *builds == config.builds,
            parts.len() == b,
            forall|i: int| 0 <= i < b ==> build_stages_ok(*config, config.builds@[i], #[trigger] parts[i]),
            (lines_view(lines@), strings_view(seen@)) == emit_unseen(flat(parts)),
            emitted_ok(lines_view(lines@), strings_view(seen@)),
            strings_view(dependencies@).no_duplicates(),
            base_stages@.len() == b,
            forall|i: int| 0 <= i < b ==> plannable(*config, (#[trigger] builds@[i]).base, builds@[i].features@),
            forall|i: int, j: int| 0 <= i < j < b ==> !stage_conflict(*config, (#[trigger] builds@[i]).base, (#[trigger] builds@[j]).base),
            forall|i: int| 0 <= i < b ==> base_stage_of(*config, (#[trigger] builds@[i]).base) == Some(base_stages@[i].0@)
                && base_stages@[i].1 == builds@[i].base,
            forall|i: int| 0 <= i < b ==> strings_view(seen@).contains((#[trigger] builds@[i]).target@)
                && strings_view(seen@).contains(base_stage_of(*config, builds@[i].base)->0),
        decreases builds.len() - b,
    {
        let build = &builds[b];
        let base_config = match config.base(&build.base) {
            Some(bc) => bc,
            None => {
                return Err(Error::MissingBase { name: build.base.name.clone(), version: build.base.version.clone() });
            },
        };
        proof { crate::lock::lemma_base_index(config.bases@, build.base); }
        let ghost bi = crate::lock::base_index(config.bases@, build.base)->0;
        let first = base_layer(base_config);
        let mut t: usize = 0;
        while t < base_stages.len()
            invariant
                t <= base_stages.len() == b < builds.len(),
                *builds == config.builds,
                *build == builds@[b as int],
                base_stage_of(*config, build.base) == Some(first.name@),
                forall|i: int| 0 <= i < b ==> base_stage_of(*config, (#[trigger] builds@[i]).base) == Some(base_stages@[i].0@)
                    && base_stages@[i].1 == builds@[i].base,
                forall|i: int| 0 <= i < t ==> !stage_conflict(*config, (#[trigger] builds@[i]).base, build.base),
            decreases base_stages.len() - t,
        {
            if base_stages[t].0 == first.name && !(base_stages[t].1 == build.base) {
                assert(stage_conflict(*config, builds@[t as int].base, builds@[b as int].base));
                return Err(Error::StageConflict { name: first.name.clone() });
            }
            t += 1;
        }
        base_stages.push((first.name.clone(), build.base.duplicate()));
        let ghost seen0 = strings_view(seen@);
        proof {
            let ls = lines_view(first.lines@);
            assert(ls[0] == base_line_spec(*base_config));
        }
        let ghost done = flat(parts);
        emit_once(&mut lines, &mut seen, &mut dependencies, &first);
        let ghost mut cur: Seq<Layer> = seq![first];
        let ghost mut groups: Seq<Seq<Layer>> = Seq::empty();
        let ghost first_name = first.name@;
        proof {
            assert((done + cur).drop_last() =~= done);
            assert(flat(groups) =~= Seq::<Layer>::empty());
            assert(cur =~= seq![first] + flat(groups));
        }
        let package_manager = base_config.package_manager.clone();
        let mut prev_layer = first.name;
        let features = &build.features;
        let mut k: usize = 0;
        while k < features.len()
            invariant
                k <= features.len(),
                *builds == config.builds,
                *build == builds@[b as int],
                b < builds.len(),
                *features == build.features,
                crate::lock::base_index(config.bases@, build.base) == Some(bi),
                0 <= bi < config.bases@.len(),
                package_manager@ == config.bases@[bi].package_manager@,
                features_available(*config, package_manager@, features@.subrange(0, k as int)),
                emitted_ok(lines_view(lines@), strings_view(seen@)),
                strings_view(dependencies@).no_duplicates(),
                strings_view(seen@).contains(prev_layer@),
                forall|name: Seq<char>| seen0.contains(name) ==> strings_view(seen@).contains(name),
                strings_view(seen@).contains(base_stage_of(*config, build.base)->0),
                done == flat(parts),
                (lines_view(lines@), strings_view(seen@)) == emit_unseen(done + cur),
                first_name == base_stage_name(config.bases@[bi]),
                first.name@ == first_name,
                lines_view(first.lines@) == seq![base_line_spec(config.bases@[bi])],
                cur == seq![first] + flat(groups),
                groups.len() == k,
                plan_ok(*config, package_manager@, first_name, features@.subrange(0, k as int), groups),
                prev_layer@ == stage_before(first_name, groups, k as int),
            decreases features.len() - k,
        {
            let feature = &features[k];
            let installation = match config.feature(feature) {
                Some(f) => f,
                None => {
                    assert(!plannable(*config, builds@[b as int].base, builds@[b as int].features@)) by {
                        assert(features@[k as int] == *feature);
                    }
                    return Err(Error::MissingFeature { name: feature.name.clone(), version: feature.version.clone() });
                },
            };
            let feature_layers = match installation_layers(package_manager.as_str(), installation, prev_layer.as_str()) {
                Ok(l) => l,
                Err(e) => {
                    assert(!plannable(*config, builds@[b as int].base, builds@[b as int].features@)) by {
                        assert(features@[k as int] == *feature);
                    }
                    return Err(e);
                },
            };
            let ghost fl = feature_layers@;
            proof { lemma_feature_stages_well_formed(fl, package_manager@, *installation, prev_layer@); }
            let ghost seen1 = strings_view(seen@);
            let ghost cur0 = cur;
            let mut i: usize = 0;
            while i < feature_layers.len()
                invariant
                    i <= feature_layers.len(),
                    fl == feature_layers@,
                    cur == cur0 + fl.subrange(0, i as int),
                    (lines_view(lines@), strings_view(seen@)) == emit_unseen(done + cur),
                    stages_well_formed(fl),
                    emitted_ok(lines_view(lines@), strings_view(seen@)),
                    strings_view(dependencies@).no_duplicates(),
                    forall|j: int| 0 <= j < i ==> strings_view(seen@).contains((#[trigger] fl[j]).name@),
                    forall|name: Seq<char>| seen1.contains(name) ==> strings_view(seen@).contains(name),
                decreases feature_layers.len() - i,
            {
                proof {
                    let ls = lines_view(fl[i as int].lines@);
                    assert forall|k2: int| 0 <= k2 < ls.len() && (#[trigger] ls[k2]) is CopyFrom implies strings_view(seen@).contains(ls[k2]->CopyFrom_stage) by {
                        let j = choose|j: int| 0 <= j < i && (#[trigger] fl[j]).name@ == lines_view(fl[i as int].lines@)[k2]->CopyFrom_stage;
                    }
                }
                emit_once(&mut lines, &mut seen, &mut dependencies, &feature_layers[i]);
                proof {
                    let old_cur = cur;
                    cur = cur.push(fl[i as int]);
                    assert((done + cur).drop_last() =~= done + old_cur);
                    assert(cur =~= cur0 + fl.subrange(0, i + 1));
                }
                i += 1;
            }
            prev_layer = feature_layers[feature_layers.len() - 1].name.clone();
            proof {
                assert(fl.subrange(0, i as int) =~= fl);
                let old_groups = groups;
                groups = groups.push(fl);
                assert(groups.drop_last() =~= old_groups);
                assert(cur =~= seq![first] + flat(groups));
                assert(fl.last() == fl[fl.len() - 1]);
                let fs2 = features@.subrange(0, k + 1);
                assert forall|k2: int| 0 <= k2 < fs2.len() implies (crate::lock::feature_index(config.features@, #[trigger] fs2[k2]) matches Some(
                    fi,
                ) && feature_stages_ok(groups[k2], package_manager@, config.features@[fi], stage_before(first_name, groups, k2))) by {
                    if k2 < k {
                        assert(fs2[k2] == features@.subrange(0, k as int)[k2]);
                        assert(stage_before(first_name, groups, k2) == stage_before(first_name, old_groups, k2));
                    } else {
                        assert(fs2[k2] == *feature);
                    }
                }
                assert(strings_view(seen@).contains(fl[fl.len() - 1].name@));
                let fs = features@.subrange(0, k + 1);
                assert forall|k2: int| 0 <= k2 < fs.len() implies (crate::lock::feature_index(config.features@, #[trigger] fs[k2]) matches Some(
                    fi,
                ) && installable(package_manager@, config.features@[fi].steps@)) by {
                    if k2 < k {
                        assert(fs[k2] == features@.subrange(0, k as int)[k2]);
                    } else {
                        assert(fs[k2] == *feature);
                    }
                }
            }
            k += 1;
        }
        proof {
            assert(features@.subrange(0, k as int) == features@);
        }
        let target_lines = tag_layer(prev_layer.as_str(), build.target.as_str());
        let target_layer = Layer::new(build.target.clone(), target_lines);
        proof {
            let ls = lines_view(target_layer.lines@);
            assert(ls == seq![DirectiveView::From { source: prev_layer@, name: build.target@ }]);
        }
        emit_once(&mut lines, &mut seen, &mut dependencies, &target_layer);
        proof {
            let old_cur = cur;
            cur = cur.push(target_layer);
            assert((done + cur).drop_last() =~= done + old_cur);
            assert(cur.subrange(1, cur.len() - 1) =~= flat(groups));
            assert(plan_ok(*config, config.bases@[bi].package_manager@, first_name, build.features@, groups));
            assert(build_stages_ok(*config, config.builds@[b as int], cur));
            let old_parts = parts;
            parts = parts.push(cur);
            assert(parts.drop_last() =~= old_parts);
            assert(flat(parts) =~= done + cur);
            assert forall|i: int| 0 <= i < b + 1 implies build_stages_ok(*config, config.builds@[i], #[trigger] parts[i]) by {
                if i < b {
                    assert(parts[i] == old_parts[i]);
                }
            }
        }
        proof {
            assert forall|i: int| 0 <= i < b + 1 implies strings_view(seen@).contains((#[trigger] builds@[i]).target@)
                && strings_view(seen@).contains(base_stage_of(*config, builds@[i].base)->0) by {
                if i < b {
                    assert(seen0.contains(builds@[i].target@));
                    assert(seen0.contains(base_stage_of(*config, builds@[i].base)->0));
                }
            }
        }
        b += 1;
    }
    proof {
        assert(parts.len() == config.builds@.len());
        let ds = lines_view(lines@);
        let sn = strings_view(seen@);
        assert forall|i: int|
            0 <= i < config.builds@.len() implies declares_before(ds, lines@.len() as int, (#[trigger] config.builds@[i]).target@)
                && declares_before(ds, lines@.len() as int, base_stage_of(*config, config.builds@[i].base)->0) by {
            let t1 = choose|t: int| 0 <= t < sn.len() && sn[t] == config.builds@[i].target@;
            let t2 = choose|t: int| 0 <= t < sn.len() && sn[t] == base_stage_of(*config, config.builds@[i].base)->0;
            assert(declares_before(ds, ds.len() as int, sn[t1]));
            assert(declares_before(ds, ds.len() as int, sn[t2]));
        }
    }
    Ok((lines, dependencies))
}

} // verus!
