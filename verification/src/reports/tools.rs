//! The tools that the writer of a report may call, and the shape of what it must write.

use crate::text::views;
use vstd::prelude::*;

verus! {

/// The type of a member of an object.
#[derive(Debug, Clone, Copy, PartialEq, Eq, Structural)]
pub enum MemberType {
    Text,
    Integer,
    Integers,
}

/// A member of an object.
#[derive(Debug, Clone)]
pub struct Member {
    pub name: String,
    pub member_type: MemberType,
    pub description: Option<String>,
    pub default: Option<i64>,
}

/// The shape of an object: its members, and which of them it must have. It has no others.
#[derive(Debug, Clone)]
pub struct ObjectSchema {
    pub members: Vec<Member>,
    pub required: Vec<String>,
}

/// A tool: its name, what it does, and what it is called with.
#[derive(Debug, Clone)]
pub struct ToolDefinition {
    pub name: String,
    pub description: String,
    pub parameters: ObjectSchema,
}

/// What a member is.
pub struct MemberView {
    pub name: Seq<char>,
    pub member_type: MemberType,
    pub description: Option<Seq<char>>,
    pub default: Option<i64>,
}

/// What an object's shape is.
pub struct SchemaView {
    pub members: Seq<MemberView>,
    pub required: Seq<Seq<char>>,
}

/// What a tool is.
pub struct ToolView {
    pub name: Seq<char>,
    pub description: Seq<char>,
    pub parameters: SchemaView,
}

impl View for Member {
    type V = MemberView;

    open spec fn view(&self) -> MemberView {
        MemberView {
            name: self.name@,
            member_type: self.member_type,
            description: crate::text::opt_view(self.description),
            default: self.default,
        }
    }
}

impl View for ObjectSchema {
    type V = SchemaView;

    open spec fn view(&self) -> SchemaView {
        SchemaView {
            members: self.members@.map_values(|m: Member| m@),
            required: views(self.required@),
        }
    }
}

impl View for ToolDefinition {
    type V = ToolView;

    open spec fn view(&self) -> ToolView {
        ToolView {
            name: self.name@,
            description: self.description@,
            parameters: self.parameters@,
        }
    }
}

/// A parameter without a description.
pub open spec fn parameter(name: Seq<char>, member_type: MemberType, default: Option<i64>) -> MemberView {
    MemberView { name, member_type, description: None, default }
}

/// The tool that reads a window of an atom.
pub open spec fn read_atom_tool() -> ToolView {
    ToolView {
        name: "read_atom"@,
        description: "Read a window of lines from an atom's markdown content. Page through with offset for long atoms."@,
        parameters: SchemaView {
            members: seq![
                parameter("atom_id"@, MemberType::Text, None),
                parameter("limit"@, MemberType::Integer, Some(500)),
                parameter("offset"@, MemberType::Integer, Some(0)),
            ],
            required: seq!["atom_id"@],
        },
    }
}

/// The tool that searches the context.
pub open spec fn semantic_search_tool() -> ToolView {
    ToolView {
        name: "semantic_search"@,
        description: "Search the context corpus configured for this report. Each result has a citation number; whether you may cite it is shown in the response."@,
        parameters: SchemaView {
            members: seq![
                parameter("query"@, MemberType::Text, None),
                parameter("limit"@, MemberType::Integer, Some(5)),
            ],
            required: seq!["query"@],
        },
    }
}

/// The tool that ends the research.
pub open spec fn done_tool() -> ToolView {
    ToolView {
        name: "done"@,
        description: "Signal that research is complete. Call this before writing the final report."@,
        parameters: SchemaView { members: Seq::empty(), required: Seq::empty() },
    }
}

/// The shape of a finding.
pub open spec fn finding_schema() -> SchemaView {
    SchemaView {
        members: seq![
            MemberView {
                name: "finding_content"@,
                member_type: MemberType::Text,
                description: Some("The finding in markdown, with [N] citation markers."@),
                default: None,
            },
            MemberView {
                name: "citations_used"@,
                member_type: MemberType::Integers,
                description: Some("List of citation numbers actually used."@),
                default: None,
            },
        ],
        required: seq!["finding_content"@, "citations_used"@],
    }
}

fn make_parameter(name: &str, member_type: MemberType, default: Option<i64>) -> (r: Member)
    ensures
        r@ == parameter(name@, member_type, default),
{
    Member { name: name.to_owned(), member_type, description: None, default }
}

fn one_text(s: &str) -> (r: Vec<String>)
    ensures
        views(r@) == seq![s@],
{
    let mut r: Vec<String> = Vec::new();
    r.push(s.to_owned());
    assert(views(r@) =~= seq![s@]);
    r
}

/// The tools that the writer of a report may call.
pub fn report_tools() -> (r: Vec<ToolDefinition>)
    ensures
        r@.map_values(|t: ToolDefinition| t@) == seq![
            read_atom_tool(),
            semantic_search_tool(),
            done_tool(),
        ],
{
    let mut read: Vec<Member> = Vec::new();
    read.push(make_parameter("atom_id", MemberType::Text, None));
    read.push(make_parameter("limit", MemberType::Integer, Some(500)));
    read.push(make_parameter("offset", MemberType::Integer, Some(0)));
    let mut search: Vec<Member> = Vec::new();
    search.push(make_parameter("query", MemberType::Text, None));
    search.push(make_parameter("limit", MemberType::Integer, Some(5)));
    let read_tool = ToolDefinition {
        name: "read_atom".to_owned(),
        description: "Read a window of lines from an atom's markdown content. Page through with offset for long atoms.".to_owned(),
        parameters: ObjectSchema { members: read, required: one_text("atom_id") },
    };
    let search_tool = ToolDefinition {
        name: "semantic_search".to_owned(),
        description: "Search the context corpus configured for this report. Each result has a citation number; whether you may cite it is shown in the response.".to_owned(),
        parameters: ObjectSchema { members: search, required: one_text("query") },
    };
    let end_tool = ToolDefinition {
        name: "done".to_owned(),
        description: "Signal that research is complete. Call this before writing the final report.".to_owned(),
        parameters: ObjectSchema { members: Vec::new(), required: Vec::new() },
    };
    proof {
        assert(read_tool@.parameters.members =~= read_atom_tool().parameters.members);
        assert(search_tool@.parameters.members =~= semantic_search_tool().parameters.members);
        assert(end_tool@.parameters.members =~= Seq::empty());
        assert(end_tool@.parameters.required =~= Seq::empty());
    }
    let mut r: Vec<ToolDefinition> = Vec::new();
    r.push(read_tool);
    r.push(search_tool);
    r.push(end_tool);
    assert(r@.map_values(|t: ToolDefinition| t@) =~= seq![
        read_atom_tool(),
        semantic_search_tool(),
        done_tool(),
    ]);
    r
}

/// The shape of what the writer of a report must write.
pub fn report_schema() -> (r: ObjectSchema)
    ensures
        r@ == finding_schema(),
{
    let mut members: Vec<Member> = Vec::new();
    members.push(
        Member {
            name: "finding_content".to_owned(),
            member_type: MemberType::Text,
            description: Some("The finding in markdown, with [N] citation markers.".to_owned()),
            default: None,
        },
    );
    members.push(
        Member {
            name: "citations_used".to_owned(),
            member_type: MemberType::Integers,
            description: Some("List of citation numbers actually used.".to_owned()),
            default: None,
        },
    );
    let mut required: Vec<String> = Vec::new();
    required.push("finding_content".to_owned());
    required.push("citations_used".to_owned());
    let r = ObjectSchema { members, required };
    assert(r@.members =~= finding_schema().members);
    assert(r@.required =~= finding_schema().required);
    r
}

/// There are three tools, and what each must be called with is among its parameters; the numbers
/// that it may be called with have defaults.
pub proof fn law_tools_take_what_they_require(r: Vec<ToolDefinition>)
    requires
        call_ensures(report_tools, (), r),
    ensures
        r@.len() == 3,
        r@[0].name@ == "read_atom"@ && r@[1].name@ == "semantic_search"@ && r@[2].name@ == "done"@,
        r@[0].parameters.required@.len() == 1 && r@[0].parameters.required@[0]@ == "atom_id"@,
        r@[1].parameters.required@.len() == 1 && r@[1].parameters.required@[0]@ == "query"@,
        r@[2].parameters.required@.len() == 0 && r@[2].parameters.members@.len() == 0,
        r@[0].parameters.members@.len() == 3 && r@[1].parameters.members@.len() == 2,
        r@[0].parameters.members@[0].name@ == "atom_id"@ && r@[0].parameters.members@[0].member_type
            == MemberType::Text && r@[0].parameters.members@[0].default is None,
        r@[0].parameters.members@[1].name@ == "limit"@ && r@[0].parameters.members@[1].member_type
            == MemberType::Integer && r@[0].parameters.members@[1].default == Some(500i64),
        r@[0].parameters.members@[2].name@ == "offset"@ && r@[0].parameters.members@[2].member_type
            == MemberType::Integer && r@[0].parameters.members@[2].default == Some(0i64),
        r@[1].parameters.members@[0].name@ == "query"@ && r@[1].parameters.members@[0].member_type
            == MemberType::Text && r@[1].parameters.members@[0].default is None,
        r@[1].parameters.members@[1].name@ == "limit"@ && r@[1].parameters.members@[1].member_type
            == MemberType::Integer && r@[1].parameters.members@[1].default == Some(5i64),
{
    let all = r@.map_values(|t: ToolDefinition| t@);
    assert(all.len() == r@.len());
    assert(all[0] == r@[0]@ && all[1] == r@[1]@ && all[2] == r@[2]@);
    lemma_tool(r@[0]);
    lemma_tool(r@[1]);
    lemma_tool(r@[2]);
    let read = r@[0]@.parameters;
    let search = r@[1]@.parameters;
    assert(read.required[0] == "atom_id"@ && search.required[0] == "query"@);
    assert(read.members[0] == parameter("atom_id"@, MemberType::Text, None));
    assert(read.members[1] == parameter("limit"@, MemberType::Integer, Some(500)));
    assert(read.members[2] == parameter("offset"@, MemberType::Integer, Some(0)));
    assert(search.members[0] == parameter("query"@, MemberType::Text, None));
    assert(search.members[1] == parameter("limit"@, MemberType::Integer, Some(5)));
}

proof fn lemma_tool(t: ToolDefinition)
    ensures
        t@.parameters.members.len() == t.parameters.members@.len(),
        t@.parameters.required.len() == t.parameters.required@.len(),
        forall|i: int|
            0 <= i < t.parameters.members@.len() ==> #[trigger] t@.parameters.members[i]
                == t.parameters.members@[i]@,
        forall|i: int|
            0 <= i < t.parameters.required@.len() ==> #[trigger] t@.parameters.required[i]
                == t.parameters.required@[i]@,
{
}

/// A finding is a text and the numbers that it cites, and must have both.
pub proof fn law_findings_have_text_and_citations(r: ObjectSchema)
    requires
        call_ensures(report_schema, (), r),
    ensures
        r.members@.len() == 2 && r.required@.len() == 2,
        r.members@[0].name@ == "finding_content"@ && r.members@[0].member_type == MemberType::Text,
        r.members@[1].name@ == "citations_used"@ && r.members@[1].member_type
            == MemberType::Integers,
        r.required@[0]@ == r.members@[0].name@ && r.required@[1]@ == r.members@[1].name@,
{
    assert(r@.members.len() == r.members@.len());
    assert(r@.required.len() == r.required@.len());
    assert(r@.members[0] == r.members@[0]@ && r@.members[1] == r.members@[1]@);
    assert(r@.required[0] == r.required@[0]@ && r@.required[1] == r.required@[1]@);
}

} // verus!
