//! Linked programs: planning a link, deciding the driver's link report, and
//! resolving attribute and uniform names to locations.
//!
//! Linking happens in the driver. A caller first asks [`Program::plan_link`]
//! to validate the set of compiled shaders (exactly one vertex and one
//! fragment shader); the accepted [`LinkPlan`] tells it which handles to
//! attach. After attaching, linking, and querying the program's active
//! variables, the caller hands everything back as a [`LinkReport`], and
//! [`Program::from_report`] decides: the report is accepted exactly when the
//! driver confirmed the link, handed out a real handle, and reported
//! well-formed variable tables (unique names, non-negative locations).
//!
//! Name resolution is total and honest: a name present in a table resolves to
//! its own location, and a name absent from the table is answered with
//! [`LookupError::NotFound`], never with an arbitrary location.

use vstd::prelude::*;
use crate::shader::Shader;
use crate::stage::ShaderStage;
use crate::uniform::Uniform;

verus! {

/// One active variable the driver reported for a linked program: its name and
/// the location it was assigned.
#[derive(Clone, Debug)]
pub struct ActiveVar {
    pub name: String,
    pub location: i32,
}

/// No two entries of the table carry the same name.
pub open spec fn names_unique(vars: Seq<ActiveVar>) -> bool {
    forall|i: int, j: int| 0 <= i < j < vars.len() ==> vars[i].name@ != vars[j].name@
}

/// Every entry carries a location the driver could have assigned.
pub open spec fn locations_reported(vars: Seq<ActiveVar>) -> bool {
    forall|i: int| 0 <= i < vars.len() ==> (#[trigger] vars[i]).location >= 0
}

/// A well-formed variable table: unique names, non-negative locations.
pub open spec fn table_wf(vars: Seq<ActiveVar>) -> bool {
    names_unique(vars) && locations_reported(vars)
}

/// Check that a reported variable table is well formed.
pub fn check_table(vars: &Vec<ActiveVar>) -> (b: bool)
    ensures
        b == table_wf(vars@),
{
    let n = vars.len();
    let mut i: usize = 0;
    while i < n
        invariant
            n == vars@.len(),
            i <= n,
            forall|p: int| 0 <= p < i ==> (#[trigger] vars@[p]).location >= 0,
        decreases n - i,
    {
        if vars[i].location < 0 {
            return false;
        }
        i += 1;
    }
    let mut i: usize = 0;
    while i < n
        invariant
            n == vars@.len(),
            i <= n,
            locations_reported(vars@),
            forall|p: int, q: int| 0 <= p < q < vars@.len() && p < i ==> vars@[p].name@ != vars@[q].name@,
        decreases n - i,
    {
        let mut j: usize = i + 1;
        while j < n
            invariant
                n == vars@.len(),
                i < j,
                i < n,
                forall|q: int| i < q < j ==> vars@[i as int].name@ != (#[trigger] vars@[q]).name@,
            decreases n - j,
        {
            if vars[i].name == vars[j].name {
                return false;
            }
            j += 1;
        }
        i += 1;
    }
    true
}

/// The first location the table gives to `name`, if any entry carries it.
pub open spec fn lookup_var(vars: Seq<ActiveVar>, name: Seq<char>) -> Option<i32>
    decreases vars.len(),
{
    if vars.len() == 0 {
        None
    } else if vars[0].name@ == name {
        Some(vars[0].location)
    } else {
        lookup_var(vars.subrange(1, vars.len() as int), name)
    }
}

/// With unique names, every entry of the table is found by lookup, at its own
/// location: a linked program exposes a lookup for every variable the driver
/// reported for it.
pub proof fn lemma_lookup_finds_entry(vars: Seq<ActiveVar>, i: int)
    requires
        names_unique(vars),
        0 <= i < vars.len(),
    ensures
        lookup_var(vars, vars[i].name@) == Some(vars[i].location),
    decreases vars.len(),
{
    if i > 0 {
        let rest = vars.subrange(1, vars.len() as int);
        assert(names_unique(rest)) by {
            assert forall|p: int, q: int| 0 <= p < q < rest.len() implies rest[p].name@ != rest[q].name@ by {
                assert(rest[p] == vars[p + 1]);
                assert(rest[q] == vars[q + 1]);
            }
        }
        lemma_lookup_finds_entry(rest, i - 1);
        assert(rest[i - 1] == vars[i]);
    }
}

/// Lookup answers `None` exactly on the names no entry of the table carries:
/// an absent name is never resolved to an arbitrary location.
pub proof fn lemma_lookup_none_iff_absent(vars: Seq<ActiveVar>, name: Seq<char>)
    ensures
        (lookup_var(vars, name) is None) <==> (forall|i: int|
            0 <= i < vars.len() ==> (#[trigger] vars[i]).name@ != name),
    decreases vars.len(),
{
    if vars.len() > 0 && vars[0].name@ != name {
        let rest = vars.subrange(1, vars.len() as int);
        lemma_lookup_none_iff_absent(rest, name);
        assert forall|i: int| 0 <= i < rest.len() implies rest[i] == vars[i + 1] by {}
        if lookup_var(vars, name) is None {
            assert forall|i: int| 0 <= i < vars.len() implies (#[trigger] vars[i]).name@ != name by {
                if i > 0 {
                    assert(vars[i] == rest[i - 1]);
                }
            }
        }
    }
}

/// A successful lookup always reads an entry of the table: the answered
/// location is the location of an entry that carries the name.
pub proof fn lemma_lookup_some_is_entry(vars: Seq<ActiveVar>, name: Seq<char>)
    ensures
        lookup_var(vars, name) matches Some(loc) ==> exists|i: int|
            0 <= i < vars.len() && (#[trigger] vars[i]).name@ == name && vars[i].location == loc,
    decreases vars.len(),
{
    if vars.len() > 0 {
        if vars[0].name@ == name {
            assert(vars[0].name@ == name);
        } else {
            let rest = vars.subrange(1, vars.len() as int);
            lemma_lookup_some_is_entry(rest, name);
            if lookup_var(vars, name) is Some {
                let j = choose|j: int|
                    0 <= j < rest.len() && (#[trigger] rest[j]).name@ == name
                        && rest[j].location == lookup_var(rest, name)->Some_0;
                assert(vars[j + 1] == rest[j]);
            }
        }
    }
}

/// Resolve `name` in the table by linear search.
fn lookup(vars: &Vec<ActiveVar>, name: &String) -> (r: Option<i32>)
    ensures
        r == lookup_var(vars@, name@),
{
    let n = vars.len();
    proof {
        assert(vars@.subrange(0, n as int) =~= vars@);
    }
    let mut i: usize = 0;
    while i < n
        invariant
            n == vars@.len(),
            i <= n,
            lookup_var(vars@, name@) == lookup_var(vars@.subrange(i as int, n as int), name@),
        decreases n - i,
    {
        let suffix_ghost = Ghost(vars@.subrange(i as int, n as int));
        if vars[i].name == *name {
            proof {
                assert(suffix_ghost@[0] == vars@[i as int]);
            }
            return Some(vars[i].location);
        }
        proof {
            assert(suffix_ghost@[0] == vars@[i as int]);
            assert(suffix_ghost@.subrange(1, suffix_ghost@.len() as int) =~= vars@.subrange(
                i + 1,
                n as int,
            ));
        }
        i += 1;
    }
    None
}

/// How a set of shaders can fail to make a program, and how a driver report
/// can be rejected.
#[derive(Debug)]
pub enum ProgramError {
    /// No shader of this stage was offered for linking.
    MissingStage(ShaderStage),
    /// More than one shader of this stage was offered for linking.
    DuplicateStage(ShaderStage),
    /// The driver did not confirm the link; the log is its diagnostic and is
    /// never empty.
    LinkFailed { log: String },
    /// The reported attribute table repeats a name or carries a negative
    /// location.
    MalformedAttributeTable,
    /// The reported uniform table repeats a name or carries a negative
    /// location.
    MalformedUniformTable,
}

/// An accepted link plan: the one vertex and the one fragment shader to
/// attach.
#[derive(Clone, Copy, Debug, PartialEq, Eq, Structural)]
pub struct LinkPlan {
    pub vertex: Shader,
    pub fragment: Shader,
}

impl LinkPlan {
    /// A plan is well formed when it holds one compiled shader per stage.
    pub open spec fn wf(self) -> bool {
        self.vertex.wf() && self.vertex.stage == ShaderStage::Vertex && self.fragment.wf()
            && self.fragment.stage == ShaderStage::Fragment
    }
}

/// What the driver reported back about one link: the program handle it
/// allocated (zero when allocation itself failed), its link-status flag, the
/// text of its info log, and the active attributes and uniforms of the linked
/// program.
#[derive(Debug)]
pub struct LinkReport {
    pub handle: u32,
    pub status_ok: bool,
    pub info_log: String,
    pub attribs: Vec<ActiveVar>,
    pub uniforms: Vec<ActiveVar>,
}

/// The driver confirmed the link and handed out a real handle.
pub open spec fn link_confirmed(report: LinkReport) -> bool {
    report.status_ok && report.handle != 0
}

/// A link report is accepted exactly when the driver confirmed the link and
/// both reported variable tables are well formed.
pub open spec fn link_accepted(report: LinkReport) -> bool {
    link_confirmed(report) && table_wf(report.attribs@) && table_wf(report.uniforms@)
}

/// The diagnostic a `LinkFailed` error carries when the driver confirmed
/// failure but returned an empty info log.
pub open spec fn missing_link_diagnostic_note() -> Seq<char> {
    "linking failed and the driver returned no diagnostic"@
}

/// How many of the shaders belong to `stage`.
pub open spec fn stage_count(shaders: Seq<Shader>, stage: ShaderStage) -> nat
    decreases shaders.len(),
{
    if shaders.len() == 0 {
        0
    } else {
        stage_count(shaders.drop_last(), stage) + (if shaders.last().stage == stage {
            1nat
        } else {
            0nat
        })
    }
}

/// The error `plan_link` answers for a rejected stage composition: the vertex
/// stage is reported first, a missing stage before a duplicated one.
pub open spec fn plan_error(vertex_count: nat, fragment_count: nat) -> ProgramError {
    if vertex_count == 0 {
        ProgramError::MissingStage(ShaderStage::Vertex)
    } else if vertex_count > 1 {
        ProgramError::DuplicateStage(ShaderStage::Vertex)
    } else if fragment_count == 0 {
        ProgramError::MissingStage(ShaderStage::Fragment)
    } else {
        ProgramError::DuplicateStage(ShaderStage::Fragment)
    }
}

/// A linked program: its driver handle, the two shaders it was linked from,
/// and the active variables the driver reported for it.
#[derive(Debug)]
pub struct Program {
    pub handle: u32,
    pub vertex: Shader,
    pub fragment: Shader,
    pub attribs: Vec<ActiveVar>,
    pub uniforms: Vec<ActiveVar>,
}

impl Program {
    /// A program is well formed when it carries a real handle, one compiled
    /// shader per stage, and well-formed variable tables.
    pub open spec fn wf(self) -> bool {
        self.handle != 0 && self.vertex.wf() && self.vertex.stage == ShaderStage::Vertex
            && self.fragment.wf() && self.fragment.stage == ShaderStage::Fragment && table_wf(
            self.attribs@,
        ) && table_wf(self.uniforms@)
    }

    /// Validate the set of compiled shaders to link: the plan is accepted
    /// exactly when the set holds one vertex and one fragment shader, and a
    /// rejected set is answered with the first stage that is missing or
    /// duplicated.
    pub fn plan_link(shaders: &Vec<Shader>) -> (r: Result<LinkPlan, ProgramError>)
        requires
            forall|i: int| 0 <= i < shaders@.len() ==> (#[trigger] shaders@[i]).wf(),
        ensures
            r is Ok <==> (stage_count(shaders@, ShaderStage::Vertex) == 1 && stage_count(
                shaders@,
                ShaderStage::Fragment,
            ) == 1),
            r matches Ok(p) ==> p.wf() && shaders@.contains(p.vertex) && shaders@.contains(
                p.fragment,
            ),
            r matches Err(e) ==> e == plan_error(
                stage_count(shaders@, ShaderStage::Vertex),
                stage_count(shaders@, ShaderStage::Fragment),
            ),
    {
        let n = shaders.len();
        let mut vertex_count: usize = 0;
        let mut fragment_count: usize = 0;
        let mut vertex_sh: Option<Shader> = None;
        let mut fragment_sh: Option<Shader> = None;
        let mut i: usize = 0;
        while i < n
            invariant
                n == shaders@.len(),
                i <= n,
                forall|k: int| 0 <= k < shaders@.len() ==> (#[trigger] shaders@[k]).wf(),
                vertex_count == stage_count(shaders@.subrange(0, i as int), ShaderStage::Vertex),
                fragment_count == stage_count(
                    shaders@.subrange(0, i as int),
                    ShaderStage::Fragment,
                ),
                vertex_count <= i,
                fragment_count <= i,
                vertex_count > 0 <==> vertex_sh is Some,
                fragment_count > 0 <==> fragment_sh is Some,
                vertex_sh matches Some(s) ==> shaders@.contains(s) && s.stage
                    == ShaderStage::Vertex && s.wf(),
                fragment_sh matches Some(s) ==> shaders@.contains(s) && s.stage
                    == ShaderStage::Fragment && s.wf(),
            decreases n - i,
        {
            let sh = shaders[i];
            proof {
                assert(shaders@.subrange(0, i + 1).drop_last() =~= shaders@.subrange(0, i as int));
                assert(shaders@.subrange(0, i + 1).last() == shaders@[i as int]);
                assert(shaders@.contains(shaders@[i as int]));
            }
            match sh.stage {
                ShaderStage::Vertex => {
                    vertex_count += 1;
                    if vertex_sh.is_none() {
                        vertex_sh = Some(sh);
                    }
                },
                ShaderStage::Fragment => {
                    fragment_count += 1;
                    if fragment_sh.is_none() {
                        fragment_sh = Some(sh);
                    }
                },
            }
            i += 1;
        }
        proof {
            assert(shaders@.subrange(0, n as int) =~= shaders@);
        }
        if vertex_count == 0 {
            return Err(ProgramError::MissingStage(ShaderStage::Vertex));
        }
        if vertex_count > 1 {
            return Err(ProgramError::DuplicateStage(ShaderStage::Vertex));
        }
        if fragment_count == 0 {
            return Err(ProgramError::MissingStage(ShaderStage::Fragment));
        }
        if fragment_count > 1 {
            return Err(ProgramError::DuplicateStage(ShaderStage::Fragment));
        }
        let vertex = vertex_sh.unwrap();
        let fragment = fragment_sh.unwrap();
        Ok(LinkPlan { vertex, fragment })
    }

    /// Decide what the driver's link report means for an accepted plan: a
    /// linked `Program` when the report is accepted, and otherwise the first
    /// rejection — an unconfirmed link (with a never-empty diagnostic), then
    /// a malformed attribute table, then a malformed uniform table.
    pub fn from_report(plan: LinkPlan, report: LinkReport) -> (r: Result<Program, ProgramError>)
        requires
            plan.wf(),
        ensures
            r is Ok <==> link_accepted(report),
            r matches Ok(p) ==> p == (Program {
                handle: report.handle,
                vertex: plan.vertex,
                fragment: plan.fragment,
                attribs: report.attribs,
                uniforms: report.uniforms,
            }) && p.wf(),
            r matches Err(e) ==> (e is LinkFailed <==> !link_confirmed(report)),
            r matches Err(e) ==> (e matches ProgramError::LinkFailed { log } ==> log@.len() > 0 && (
            report.info_log@.len() > 0 ==> log == report.info_log) && (report.info_log@.len() == 0
                ==> log@ == missing_link_diagnostic_note())),
            r matches Err(e) ==> (e is MalformedAttributeTable <==> link_confirmed(report)
                && !table_wf(report.attribs@)),
            r matches Err(e) ==> (e is MalformedUniformTable <==> link_confirmed(report)
                && table_wf(report.attribs@) && !table_wf(report.uniforms@)),
    {
        if !report.status_ok || report.handle == 0 {
            let log = if report.info_log.as_str().is_empty() {
                proof {
                    reveal_strlit("linking failed and the driver returned no diagnostic");
                }
                "linking failed and the driver returned no diagnostic".to_owned()
            } else {
                report.info_log
            };
            return Err(ProgramError::LinkFailed { log });
        }
        if !check_table(&report.attribs) {
            return Err(ProgramError::MalformedAttributeTable);
        }
        if !check_table(&report.uniforms) {
            return Err(ProgramError::MalformedUniformTable);
        }
        Ok(
            Program {
                handle: report.handle,
                vertex: plan.vertex,
                fragment: plan.fragment,
                attribs: report.attribs,
                uniforms: report.uniforms,
            },
        )
    }

    /// Resolve a vertex-attribute name of this program to its location. An
    /// absent name is answered with `NotFound`, never with an arbitrary
    /// location.
    pub fn get_attrib(&self, name: &String) -> (r: Result<i32, LookupError>)
        ensures
            r matches Ok(loc) ==> lookup_var(self.attribs@, name@) == Some(loc),
            r is Err <==> lookup_var(self.attribs@, name@) is None,
            r matches Err(e) ==> e == LookupError::NotFound,
    {
        match lookup(&self.attribs, name) {
            Some(loc) => Ok(loc),
            None => Err(LookupError::NotFound),
        }
    }

    /// Resolve a uniform name of this program to a `Uniform` handle bound to
    /// this program. An absent name is answered with `NotFound`, never with
    /// an arbitrary location.
    pub fn get_unif(&self, name: &String) -> (r: Result<Uniform, LookupError>)
        requires
            self.wf(),
        ensures
            r matches Ok(u) ==> u.wf() && u.program == self.handle && lookup_var(
                self.uniforms@,
                name@,
            ) == Some(u.location),
            r is Err <==> lookup_var(self.uniforms@, name@) is None,
            r matches Err(e) ==> e == LookupError::NotFound,
    {
        match lookup(&self.uniforms, name) {
            Some(loc) => {
                proof {
                    lemma_lookup_some_is_entry(self.uniforms@, name@);
                }
                Ok(Uniform { program: self.handle, location: loc })
            },
            None => Err(LookupError::NotFound),
        }
    }
}

/// A failed name resolution: the linked program has no variable of the asked
/// name.
#[derive(Clone, Copy, Debug, PartialEq, Eq, Structural)]
pub enum LookupError {
    NotFound,
}

/// One well-formed vertex shader together with one well-formed fragment
/// shader always make an accepted link plan: `plan_link` answers `Ok` on the
/// pair. Together with `from_report`'s contract — every confirmed link report
/// with well-formed variable tables is accepted — linking a valid pair can
/// only fail inside the driver, never in this crate's decisions.
pub proof fn lemma_pair_always_links(vertex: Shader, fragment: Shader)
    requires
        vertex.wf(),
        vertex.stage == ShaderStage::Vertex,
        fragment.wf(),
        fragment.stage == ShaderStage::Fragment,
    ensures
        stage_count(seq![vertex, fragment], ShaderStage::Vertex) == 1,
        stage_count(seq![vertex, fragment], ShaderStage::Fragment) == 1,
{
    let pair = seq![vertex, fragment];
    let single = seq![vertex];
    let empty = Seq::<Shader>::empty();
    assert(single.drop_last() =~= empty);
    assert(single.last() == vertex);
    assert(stage_count(empty, ShaderStage::Vertex) == 0);
    assert(stage_count(empty, ShaderStage::Fragment) == 0);
    assert(stage_count(single, ShaderStage::Vertex) == 1);
    assert(stage_count(single, ShaderStage::Fragment) == 0);
    assert(pair.drop_last() =~= single);
    assert(pair.last() == fragment);
    assert(stage_count(pair, ShaderStage::Vertex) == 1);
    assert(stage_count(pair, ShaderStage::Fragment) == 1);
}

} // verus!
