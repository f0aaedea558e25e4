//! Pinning one base or feature version: looking up its concrete version,
//! populating its templates, and choosing how its image is identified.
use vstd::prelude::*;

use vstd::string::StrSliceExecFns;

use crate::error::Error;
use crate::lock::{
    BaseConfig, DockerInstallation, ImageIdentifier, Installation, InstallationConfig, Layer, RpmInstallation,
    RpmInstallationMethod, SingleVersioned,
};
use crate::template::{render, render_spec};
use crate::text::{push_char, strings_view};

verus! {

/// Index of the first `:` in a text.
pub open spec fn colon_index(s: Seq<char>) -> Option<int>
    decreases s.len(),
{
    if s.len() == 0 {
        None
    } else {
        match colon_index(s.drop_last()) {
            Some(i) => Some(i),
            None => if s.last() == ':' { Some(s.len() - 1) } else { None },
        }
    }
}

proof fn lemma_colon_index(s: Seq<char>, k: int)
    requires
        0 <= k <= s.len(),
        colon_index(s.subrange(0, k)) is None,
        forall|j: int| 0 <= j < k ==> s[j] != ':',
    ensures
        k < s.len() && s[k] == ':' ==> colon_index(s) == Some(k),
        k == s.len() ==> colon_index(s) is None,
    decreases s.len() - k,
{
    if k < s.len() && s[k] == ':' {
        assert(s.subrange(0, k + 1).drop_last() == s.subrange(0, k));
        lemma_colon_prefix(s, k + 1);
    } else if k == s.len() {
        assert(s.subrange(0, k) == s);
    }
}

proof fn lemma_colon_prefix(s: Seq<char>, k: int)
    requires
        0 <= k <= s.len(),
        colon_index(s.subrange(0, k)) is Some,
    ensures
        colon_index(s) == colon_index(s.subrange(0, k)),
    decreases s.len() - k,
{
    if k < s.len() {
        assert(s.subrange(0, k + 1).drop_last() == s.subrange(0, k));
        lemma_colon_prefix(s, k + 1);
    } else {
        assert(s.subrange(0, k) == s);
    }
}

/// The text before the first `:`; the whole text without one.
pub open spec fn registry_spec(image: Seq<char>) -> Seq<char> {
    match colon_index(image) {
        Some(i) => image.subrange(0, i),
        None => image,
    }
}

/// The text after the first `:` up to the next `:`, if there is a first one.
pub open spec fn tag_spec(image: Seq<char>) -> Option<Seq<char>> {
    match colon_index(image) {
        Some(i) => Some(registry_spec(image.subrange(i + 1, image.len() as int))),
        None => None,
    }
}

/// The leading part of `s` from `start` up to the first `:` after it, and the
/// position of that `:` if there is one.
fn scan_to_colon(s: &str, start: usize) -> (r: (String, Option<usize>))
    requires
        start <= s@.len(),
    ensures
        s@.len() <= usize::MAX,
        r.0@ == registry_spec(s@.subrange(start as int, s@.len() as int)),
        r.1 is Some <==> colon_index(s@.subrange(start as int, s@.len() as int)) is Some,
        r.1 matches Some(p) ==> colon_index(s@.subrange(start as int, s@.len() as int)) == Some(p - start) && start <= p < s@.len(),
{
    let n = s.unicode_len();
    let ghost t = s@.subrange(start as int, s@.len() as int);
    let mut out = String::new();
    let mut i: usize = start;
    while i < n
        invariant
            start <= i <= n == s@.len(),
            t == s@.subrange(start as int, s@.len() as int),
            out@ == t.subrange(0, i - start),
            colon_index(t.subrange(0, i - start)) is None,
            forall|j: int| 0 <= j < i - start ==> t[j] != ':',
        decreases n - i,
    {
        let c = s.get_char(i);
        if c == ':' {
            proof { lemma_colon_index(t, i - start); }
            return (out, Some(i));
        }
        assert(t.subrange(0, i + 1 - start).drop_last() == t.subrange(0, i - start));
        push_char(&mut out, c);
        i += 1;
        assert(out@ =~= t.subrange(0, i - start));
    }
    proof { lemma_colon_index(t, i - start); }
    assert(t.subrange(0, i - start) == t);
    (out, None)
}

/// The registry path of an image reference: the text before its first `:`.
pub fn image_registry(image: &str) -> (r: String)
    ensures
        r@ == registry_spec(image@),
{
    assert(image@.subrange(0, image@.len() as int) == image@);
    scan_to_colon(image, 0).0
}

/// The tag of an image reference: the text after its first `:` up to any next one.
pub fn image_tag(image: &str) -> (r: Option<String>)
    ensures
        r is Some <==> tag_spec(image@) is Some,
        r matches Some(t) ==> t@ == tag_spec(image@)->0,
{
    assert(image@.subrange(0, image@.len() as int) == image@);
    match scan_to_colon(image, 0).1 {
        Some(p) => {
            let (t, _) = scan_to_colon(image, p + 1);
            Some(t)
        },
        None => None,
    }
}

/// How an image is identified: by its digest when there is one, otherwise by
/// the tag that its reference carries; without either there is nothing to pin.
pub fn image_identifier(image: &str, digest: Option<String>) -> (r: Result<ImageIdentifier, Error>)
    ensures
        digest matches Some(d) ==> r matches Ok(ImageIdentifier::Digest { digest: x }) && x@ == d@,
        digest is None ==> (tag_spec(image@) matches Some(t) ==> (r matches Ok(ImageIdentifier::Tag { tag: x }) && x@ == t)),
        digest is None ==> (tag_spec(image@) is None ==> (r matches Err(Error::NoDigest { image: i }) && i@ == image@)),
{
    match digest {
        Some(d) => Ok(ImageIdentifier::Digest { digest: d }),
        None => match image_tag(image) {
            Some(tag) => Ok(ImageIdentifier::Tag { tag }),
            None => Err(Error::NoDigest { image: String::from_str(image) }),
        },
    }
}

/// Index of the first entry for a name and abstract version. Tables of
/// resolved versions are read by this first-match rule: of two entries for the
/// same name and abstract version, the first one counts.
pub open spec fn resolved_index(table: Seq<(SingleVersioned, String)>, name: Seq<char>, target: Seq<char>) -> Option<int>
    decreases table.len(),
{
    if table.len() == 0 {
        None
    } else {
        match resolved_index(table.drop_last(), name, target) {
            Some(i) => Some(i),
            None => if table.last().0.name@ == name && table.last().0.version@ == target {
                Some(table.len() - 1)
            } else {
                None
            },
        }
    }
}

/// The concrete version that a name's abstract version resolved to.
pub open spec fn resolved_spec(table: Seq<(SingleVersioned, String)>, name: Seq<char>, target: Seq<char>) -> Option<Seq<char>> {
    match resolved_index(table, name, target) {
        Some(i) => Some(table[i].1@),
        None => None,
    }
}

/// Looks up the concrete version of a name's abstract version in the table of
/// resolved versions.
pub fn actual_version(table: &Vec<(SingleVersioned, String)>, name: &String, version: &String) -> (r: Result<String, Error>)
    ensures
        r is Ok <==> resolved_spec(table@, name@, version@) is Some,
        r matches Ok(a) ==> a@ == resolved_spec(table@, name@, version@)->0,
        r matches Err(e) ==> (e matches Error::VersionsNotFound { name: n } && n@ == name@
            && forall|j: int| 0 <= j < table@.len() ==> (#[trigger] table@[j]).0.name@ != name@)
            || (e matches Error::VersionNotFound { name: n, version: v } && n@ == name@ && v@ == version@),
{
    let mut any_of_name = false;
    let mut i: usize = 0;
    while i < table.len()
        invariant
            i <= table.len(),
            resolved_index(table@.subrange(0, i as int), name@, version@) is None,
            !any_of_name ==> forall|j: int| 0 <= j < i ==> (#[trigger] table@[j]).0.name@ != name@,
        decreases table.len() - i,
    {
        assert(table@.subrange(0, i + 1).drop_last() == table@.subrange(0, i as int));
        if table[i].0.name == *name {
            any_of_name = true;
            if table[i].0.version == *version {
                proof { lemma_resolved_prefix(table@, name@, version@, i + 1); }
                return Ok(table[i].1.clone());
            }
        }
        i += 1;
    }
    assert(table@.subrange(0, i as int) == table@);
    if any_of_name {
        Err(Error::VersionNotFound { name: name.clone(), version: version.clone() })
    } else {
        Err(Error::VersionsNotFound { name: name.clone() })
    }
}

proof fn lemma_resolved_prefix(table: Seq<(SingleVersioned, String)>, name: Seq<char>, target: Seq<char>, k: int)
    requires
        0 <= k <= table.len(),
        resolved_index(table.subrange(0, k), name, target) is Some,
    ensures
        resolved_index(table, name, target) == resolved_index(table.subrange(0, k), name, target),
        resolved_index(table, name, target) matches Some(i) && 0 <= i < k,
    decreases table.len() - k,
{
    lemma_resolved_bound(table.subrange(0, k), name, target);
    if k < table.len() {
        assert(table.subrange(0, k + 1).drop_last() == table.subrange(0, k));
        lemma_resolved_prefix(table, name, target, k + 1);
    } else {
        assert(table.subrange(0, k) == table);
    }
}

proof fn lemma_resolved_bound(table: Seq<(SingleVersioned, String)>, name: Seq<char>, target: Seq<char>)
    ensures
        resolved_index(table, name, target) matches Some(i) ==> 0 <= i < table.len(),
    decreases table.len(),
{
    if table.len() > 0 {
        lemma_resolved_bound(table.drop_last(), name, target);
    }
}

/// Each template rendered against a version, or `None` when one fails.
pub open spec fn render_all_spec(templates: Seq<Seq<char>>, version: Seq<char>) -> Option<Seq<Seq<char>>>
    decreases templates.len(),
{
    if templates.len() == 0 {
        Some(Seq::empty())
    } else {
        match (render_all_spec(templates.drop_last(), version), render_spec(templates.last(), version)) {
            (Some(rs), Some(r)) => Some(rs.push(r)),
            _ => None,
        }
    }
}

impl SingleVersioned {
    /// The template rendered against this version.
    pub fn populate_template(&self, template: &str) -> (r: Result<String, Error>)
        ensures
            r is Ok <==> render_spec(template@, self.version@) is Some,
            r matches Ok(s) ==> s@ == render_spec(template@, self.version@)->0,
            r matches Err(e) ==> e is Template,
    {
        render(template, self.version.as_str())
    }

    /// Every template rendered against this version.
    pub fn populate_templates(&self, templates: &Vec<String>) -> (r: Result<Vec<String>, Error>)
        ensures
            r is Ok <==> render_all_spec(strings_view(templates@), self.version@) is Some,
            r matches Ok(v) ==> strings_view(v@) == render_all_spec(strings_view(templates@), self.version@)->0,
            r matches Err(e) ==> e is Template,
    {
        let ghost ts = strings_view(templates@);
        let mut out: Vec<String> = Vec::new();
        let mut i: usize = 0;
        while i < templates.len()
            invariant
                i <= templates.len(),
                ts == strings_view(templates@),
                render_all_spec(ts.subrange(0, i as int), self.version@) == Some(strings_view(out@)),
            decreases templates.len() - i,
        {
            assert(ts.subrange(0, i + 1).drop_last() == ts.subrange(0, i as int));
            let rendered = self.populate_template(templates[i].as_str());
            match rendered {
                Ok(s) => {
                    out.push(s);
                    assert(strings_view(out@) =~= strings_view(out@.drop_last()).push(out@.last()@));
                },
                Err(e) => {
                    proof { lemma_render_all_fails(ts, self.version@, i as int + 1); }
                    return Err(e);
                },
            }
            i += 1;
        }
        assert(ts.subrange(0, i as int) == ts);
        Ok(out)
    }
}

proof fn lemma_render_all_fails(ts: Seq<Seq<char>>, version: Seq<char>, k: int)
    requires
        0 <= k <= ts.len(),
        render_all_spec(ts.subrange(0, k), version) is None,
    ensures
        render_all_spec(ts, version) is None,
    decreases ts.len() - k,
{
    if k < ts.len() {
        assert(ts.subrange(0, k + 1).drop_last() == ts.subrange(0, k));
        lemma_render_all_fails(ts, version, k + 1);
    } else {
        assert(ts.subrange(0, k) == ts);
    }
}

impl BaseConfig {
    /// The base's name with its concrete version.
    pub fn single_versioned(&self) -> (r: SingleVersioned)
        ensures
            r.name == self.name,
            r.version == self.version,
    {
        SingleVersioned { name: self.name.clone(), version: self.version.clone() }
    }
}

impl InstallationConfig {
    /// The feature's name with its concrete version.
    pub fn single_versioned(&self) -> (r: SingleVersioned)
        ensures
            r.name == self.name,
            r.version == self.version,
    {
        SingleVersioned { name: self.name.clone(), version: self.version.clone() }
    }
}

impl DockerInstallation {
    /// The recipe with its commands and dependencies rendered against the version.
    pub fn populate(&self, single_versioned: &SingleVersioned) -> (r: Result<DockerInstallation, Error>)
        ensures
            r is Ok <==> render_all_spec(strings_view(self.commands@), single_versioned.version@) is Some
                && render_all_spec(strings_view(self.dependencies@), single_versioned.version@) is Some,
            r matches Ok(d) ==> strings_view(d.commands@) == render_all_spec(strings_view(self.commands@), single_versioned.version@)->0
                && strings_view(d.dependencies@) == render_all_spec(strings_view(self.dependencies@), single_versioned.version@)->0,
    {
        let commands = match single_versioned.populate_templates(&self.commands) {
            Ok(c) => c,
            Err(e) => return Err(e),
        };
        let dependencies = match single_versioned.populate_templates(&self.dependencies) {
            Ok(d) => d,
            Err(e) => return Err(e),
        };
        Ok(DockerInstallation { commands, dependencies })
    }
}

/// Each recipe's script rendered against a version, keys kept.
pub open spec fn methods_rendered(
    methods: Seq<(String, RpmInstallationMethod)>,
    out: Seq<(String, RpmInstallationMethod)>,
    version: Seq<char>,
) -> bool {
    &&& out.len() == methods.len()
    &&& forall|i: int|
        0 <= i < methods.len() ==> (#[trigger] out[i]).0@ == methods[i].0@ && render_all_spec(
            strings_view(methods[i].1.script@),
            version,
        ) == Some(strings_view(out[i].1.script@))
}

impl RpmInstallation {
    /// The recipes with every script line rendered against the version.
    pub fn populate(&self, single_versioned: &SingleVersioned) -> (r: Result<RpmInstallation, Error>)
        ensures
            r is Err ==> exists|i: int|
                0 <= i < self.installation_methods@.len() && render_all_spec(
                    strings_view((#[trigger] self.installation_methods@[i]).1.script@),
                    single_versioned.version@,
                ) is None,
            r matches Ok(p) ==> methods_rendered(self.installation_methods@, p.installation_methods@, single_versioned.version@),
    {
        let methods = &self.installation_methods;
        let mut out: Vec<(String, RpmInstallationMethod)> = Vec::new();
        let mut i: usize = 0;
        while i < methods.len()
            invariant
                i <= methods.len(),
                methods@ == self.installation_methods@,
                methods_rendered(methods@.subrange(0, i as int), out@, single_versioned.version@),
            decreases methods.len() - i,
        {
            let script = match single_versioned.populate_templates(&methods[i].1.script) {
                Ok(s) => s,
                Err(e) => {
                    assert(render_all_spec(strings_view(methods@[i as int].1.script@), single_versioned.version@) is None);
                    return Err(e);
                },
            };
            out.push((methods[i].0.clone(), RpmInstallationMethod { script }));
            i += 1;
            assert forall|j: int| 0 <= j < i implies (#[trigger] out@[j]).0@ == methods@.subrange(0, i as int)[j].0@ && render_all_spec(
                strings_view(methods@.subrange(0, i as int)[j].1.script@),
                single_versioned.version@,
            ) == Some(strings_view(out@[j].1.script@)) by {
                if j < i - 1 {
                    assert(methods@.subrange(0, i as int)[j] == methods@.subrange(0, i - 1)[j]);
                }
            }
        }
        assert(methods@.subrange(0, i as int) == methods@);
        Ok(RpmInstallation { installation_methods: out })
    }
}

/// A step with its recipe rendered against a version.
pub open spec fn installation_rendered(inst: Installation, out: Installation, version: Seq<char>) -> bool {
    match (inst, out) {
        (Installation::Docker(d), Installation::Docker(o)) => render_all_spec(strings_view(d.commands@), version)
            == Some(strings_view(o.commands@)) && render_all_spec(strings_view(d.dependencies@), version) == Some(
            strings_view(o.dependencies@),
        ),
        (Installation::Rpm(r), Installation::Rpm(o)) => methods_rendered(r.installation_methods@, o.installation_methods@, version),
        _ => false,
    }
}

/// Every template of a step's recipe renders against the version.
pub open spec fn installation_renders(inst: Installation, version: Seq<char>) -> bool {
    match inst {
        Installation::Docker(d) => render_all_spec(strings_view(d.commands@), version) is Some && render_all_spec(
            strings_view(d.dependencies@),
            version,
        ) is Some,
        Installation::Rpm(r) => forall|i: int|
            0 <= i < r.installation_methods@.len() ==> render_all_spec(
                strings_view((#[trigger] r.installation_methods@[i]).1.script@),
                version,
            ) is Some,
    }
}

impl Installation {
    /// The recipe rendered against the version.
    pub fn populate(&self, single_versioned: &SingleVersioned) -> (r: Result<Installation, Error>)
        ensures
            r is Ok <==> installation_renders(*self, single_versioned.version@),
            r matches Ok(o) ==> installation_rendered(*self, o, single_versioned.version@),
    {
        match self {
            Installation::Docker(d) => match d.populate(single_versioned) {
                Ok(o) => Ok(Installation::Docker(o)),
                Err(e) => Err(e),
            },
            Installation::Rpm(r) => match r.populate(single_versioned) {
                Ok(o) => {
                    assert forall|i: int| 0 <= i < r.installation_methods@.len() implies render_all_spec(
                        strings_view((#[trigger] r.installation_methods@[i]).1.script@),
                        single_versioned.version@,
                    ) is Some by {
                        assert(render_all_spec(strings_view(r.installation_methods@[i].1.script@), single_versioned.version@)
                            == Some(strings_view(o.installation_methods@[i].1.script@)));
                    }
                    Ok(Installation::Rpm(o))
                },
                Err(e) => Err(e),
            },
        }
    }
}

/// A step rendered against a version: its recipe rendered, kind and copies kept.
pub open spec fn step_rendered(step: Layer, out: Layer, version: Seq<char>) -> bool {
    &&& out.layer_type == step.layer_type
    &&& out.copy@ == step.copy@
    &&& installation_rendered(step.installation, out.installation, version)
}

impl Layer {
    /// The step with its recipe rendered against the version.
    pub fn populate(&self, single_versioned: &SingleVersioned) -> (r: Result<Layer, Error>)
        ensures
            r is Ok <==> installation_renders(self.installation, single_versioned.version@),
            r matches Ok(o) ==> step_rendered(*self, o, single_versioned.version@),
    {
        let installation = match self.installation.populate(single_versioned) {
            Ok(i) => i,
            Err(e) => return Err(e),
        };
        let mut copy: Vec<(String, String)> = Vec::new();
        let mut i: usize = 0;
        while i < self.copy.len()
            invariant
                i <= self.copy.len(),
                copy@ == self.copy@.subrange(0, i as int),
            decreases self.copy.len() - i,
        {
            copy.push((self.copy[i].0.clone(), self.copy[i].1.clone()));
            i += 1;
        }
        assert(self.copy@.subrange(0, i as int) == self.copy@);
        Ok(Layer { layer_type: self.layer_type, installation, copy })
    }
}

} // verus!
