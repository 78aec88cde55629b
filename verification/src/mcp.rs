//! Agent-operable administration: the admin tools that agents may call, the
//! permissions they need, and the checks that stand before a call.
//!
//! Each tool requires a permission. A call is refused when the tool is not
//! known, when the agent lacks the tool's permission, or when the arguments
//! do not fit the tool's input schema, in this order; only then is it handed
//! to the handler.

pub mod laws;

use vstd::prelude::*;
use vstd::string::*;

use crate::json;
use crate::json::{find_member, Json, JsonView};
use crate::json_text;
use crate::json_text::join;
use crate::lists;
use crate::text;
use crate::text::{cat2, cat3, same};
use crate::text_map::TextMap;

verus! {

broadcast use {
    crate::json::lemma_array,
    crate::json::lemma_object,
    crate::text::lemma_texts_push,
};

// ---------------------------------------------------------------------------
// Protocol types
// ---------------------------------------------------------------------------

/// A permission required to use a tool.
#[derive(Clone, Copy, Debug, PartialEq, Eq, Hash, Structural)]
pub enum Permission {
    /// Read access (list, get, stats, health, config dump).
    Read,
    /// Write access (create, update, delete).
    Write,
    /// Admin access (purge cache, reload config).
    Admin,
}

/// The name of a permission.
pub open spec fn permission_name(p: Permission) -> Seq<char> {
    match p {
        Permission::Read => "Read"@,
        Permission::Write => "Write"@,
        Permission::Admin => "Admin"@,
    }
}

/// The names of permissions, in brackets.
pub open spec fn permission_list(v: Seq<Permission>) -> Seq<char> {
    "["@ + json_text::joined(v.map_values(|p: Permission| permission_name(p)), ", "@) + "]"@
}

impl Permission {
    /// The name of the permission.
    pub fn name(&self) -> (s: &'static str)
        ensures
            s@ == permission_name(*self),
    {
        match self {
            Permission::Read => "Read",
            Permission::Write => "Write",
            Permission::Admin => "Admin",
        }
    }
}

/// A tool definition.
#[derive(Debug, Clone, PartialEq, Eq)]
pub struct ToolDefinition {
    /// The tool name.
    pub name: String,
    /// The tool description.
    pub description: String,
    /// The JSON Schema for the tool's input parameters.
    pub input_schema: Json,
    /// The permission required to use this tool.
    pub required_permission: Permission,
}

/// What a tool is.
pub struct Tool {
    pub name: Seq<char>,
    pub description: Seq<char>,
    pub input_schema: JsonView,
    pub required_permission: Permission,
}

impl View for ToolDefinition {
    type V = Tool;

    open spec fn view(&self) -> Tool {
        Tool {
            name: self.name@,
            description: self.description@,
            input_schema: self.input_schema@,
            required_permission: self.required_permission,
        }
    }
}

/// A tool call request.
#[derive(Debug, Clone, PartialEq, Eq)]
pub struct ToolCallRequest {
    /// The tool name.
    pub name: String,
    /// The tool arguments.
    pub arguments: Json,
}

/// A tool call response.
#[derive(Debug, Clone, PartialEq, Eq)]
pub struct ToolCallResponse {
    /// Whether the call succeeded.
    pub success: bool,
    /// The result (on success) or error message (on failure).
    pub result: Json,
    /// The error code (on failure).
    pub error_code: Option<String>,
}

/// What a response is.
pub struct Response {
    pub success: bool,
    pub result: JsonView,
    pub error_code: Option<Seq<char>>,
}

impl View for ToolCallResponse {
    type V = Response;

    open spec fn view(&self) -> Response {
        Response {
            success: self.success,
            result: self.result@,
            error_code: text::opt_text(self.error_code),
        }
    }
}

/// The response of a refusal.
pub open spec fn refusal(code: Seq<char>, message: Seq<char>) -> Response {
    Response { success: false, result: JsonView::Text { text: message }, error_code: Some(code) }
}

fn refuse(code: &str, message: String) -> (r: ToolCallResponse)
    ensures
        r@ == refusal(code@, message@),
{
    ToolCallResponse {
        success: false,
        result: Json::Text(message),
        error_code: Some(code.to_owned()),
    }
}

/// An agent's identity and permissions.
#[derive(Debug, Clone, PartialEq, Eq)]
pub struct AgentIdentity {
    /// The agent's name.
    pub name: String,
    /// The agent's permissions.
    pub permissions: Vec<Permission>,
}

impl AgentIdentity {
    /// Check if the agent has a permission.
    pub fn has_permission(&self, perm: Permission) -> (r: bool)
        ensures
            r == self.permissions@.contains(perm),
    {
        let mut i: usize = 0;
        while i < self.permissions.len()
            invariant
                i <= self.permissions.len(),
                forall|j: int| 0 <= j < i ==> self.permissions@[j] != perm,
            decreases self.permissions.len() - i,
        {
            if self.permissions[i] == perm {
                assert(self.permissions@[i as int] == perm);
                return true;
            }
            i = i + 1;
        }
        false
    }

    /// Create an agent with read-only permissions.
    pub fn read_only(name: &str) -> (a: Self)
        ensures
            a.name@ == name@,
            a.permissions@ == seq![Permission::Read],
    {
        let permissions = vec![Permission::Read];
        assert(permissions@ =~= seq![Permission::Read]);
        AgentIdentity { name: name.to_owned(), permissions }
    }

    /// Create an agent with read + write permissions.
    pub fn read_write(name: &str) -> (a: Self)
        ensures
            a.name@ == name@,
            a.permissions@ == seq![Permission::Read, Permission::Write],
    {
        let permissions = vec![Permission::Read, Permission::Write];
        assert(permissions@ =~= seq![Permission::Read, Permission::Write]);
        AgentIdentity { name: name.to_owned(), permissions }
    }

    /// Create an agent with all permissions.
    pub fn admin(name: &str) -> (a: Self)
        ensures
            a.name@ == name@,
            a.permissions@ == seq![Permission::Read, Permission::Write, Permission::Admin],
    {
        let permissions = vec![Permission::Read, Permission::Write, Permission::Admin];
        assert(permissions@ =~= seq![Permission::Read, Permission::Write, Permission::Admin]);
        AgentIdentity { name: name.to_owned(), permissions }
    }

    fn permissions_text(&self) -> (s: String)
        ensures
            s@ == permission_list(self.permissions@),
    {
        let ghost names = self.permissions@.map_values(|p: Permission| permission_name(p));
        let mut v: Vec<String> = Vec::new();
        let mut i: usize = 0;
        while i < self.permissions.len()
            invariant
                i <= self.permissions.len(),
                v.len() == i,
                names == self.permissions@.map_values(|p: Permission| permission_name(p)),
                forall|j: int| 0 <= j < i ==> (#[trigger] v@[j])@ == names[j],
            decreases self.permissions.len() - i,
        {
            v.push(self.permissions[i].name().to_owned());
            i = i + 1;
        }
        assert(text::texts(v@) =~= names);
        cat3("[", join(&v, ", ").as_str(), "]")
    }
}

// ---------------------------------------------------------------------------
// Argument validation
// ---------------------------------------------------------------------------

/// The first of the first `n` required fields that is no name, or that the
/// arguments lack.
pub open spec fn missing_field(
    required: Seq<JsonView>,
    args: Seq<(Seq<char>, JsonView)>,
    n: nat,
) -> Option<Seq<char>>
    decreases n,
{
    if n == 0 {
        None
    } else {
        match missing_field(required, args, (n - 1) as nat) {
            Some(e) => Some(e),
            None => match required[n - 1] {
                JsonView::Text { text } => if json::member_of(args, text) is Some {
                    None
                } else {
                    Some("missing required field: "@ + text)
                },
                _ => Some("required field name must be a string"@),
            },
        }
    }
}

/// The first of the first `n` arguments that the properties do not name.
pub open spec fn unknown_field(
    properties: Seq<(Seq<char>, JsonView)>,
    args: Seq<(Seq<char>, JsonView)>,
    n: nat,
) -> Option<Seq<char>>
    decreases n,
{
    if n == 0 {
        None
    } else {
        match unknown_field(properties, args, (n - 1) as nat) {
            Some(e) => Some(e),
            None => if json::member_of(properties, args[n - 1].0) is Some {
                None
            } else {
                Some("unknown field: "@ + args[n - 1].0)
            },
        }
    }
}

/// What is wrong with the required fields of arguments.
pub open spec fn required_error(
    schema: Seq<(Seq<char>, JsonView)>,
    args: Seq<(Seq<char>, JsonView)>,
) -> Option<Seq<char>> {
    match json::member_of(schema, "required"@) {
        Some(JsonView::Array { items }) => missing_field(items, args, items.len()),
        _ => None,
    }
}

/// What is wrong with the names of arguments.
pub open spec fn unknown_error(
    schema: Seq<(Seq<char>, JsonView)>,
    args: Seq<(Seq<char>, JsonView)>,
) -> Option<Seq<char>> {
    if json::member_of(schema, "additionalProperties"@) == Some(JsonView::Bool { value: false }) {
        match json::member_of(schema, "properties"@) {
            Some(JsonView::Object { members }) => unknown_field(members, args, args.len()),
            _ => None,
        }
    } else {
        None
    }
}

/// What is wrong with arguments under a schema, if anything is.
pub open spec fn argument_error(schema: JsonView, args: JsonView) -> Option<Seq<char>> {
    match schema {
        JsonView::Object { members } => if json::member_of(members, "type"@) == Some(
            JsonView::Text { text: "object"@ },
        ) {
            match args {
                JsonView::Object { members: given } => match required_error(members, given) {
                    Some(e) => Some(e),
                    None => unknown_error(members, given),
                },
                _ => Some("arguments must be an object"@),
            }
        } else {
            None
        },
        _ => Some("schema must be an object"@),
    }
}

/// What a validation says.
pub open spec fn validation_view(r: Result<(), String>) -> Option<Seq<char>> {
    match r {
        Ok(_) => None,
        Err(e) => Some(e@),
    }
}

fn check_required(required: &Vec<Json>, args: &Vec<(String, Json)>) -> (r: Result<(), String>)
    ensures
        validation_view(r) == missing_field(
            json::values_of(required@),
            json::members_of(args@),
            required@.len(),
        ),
{
    let ghost req = json::values_of(required@);
    let ghost given = json::members_of(args@);
    let mut i: usize = 0;
    while i < required.len()
        invariant
            i <= required.len(),
            req == json::values_of(required@),
            given == json::members_of(args@),
            missing_field(req, given, i as nat) is None,
        decreases required.len() - i,
    {
        assert(req[i as int] == required@[i as int]@);
        match required[i].as_str() {
            None => {
                proof {
                    lemma_missing_stays(req, given, i as nat + 1, req.len());
                }
                return Err("required field name must be a string".to_owned());
            },
            Some(name) => {
                if find_member(args, name).is_none() {
                    proof {
                        lemma_missing_stays(req, given, i as nat + 1, req.len());
                    }
                    return Err(cat2("missing required field: ", name));
                }
            },
        }
        i = i + 1;
    }
    Ok(())
}

proof fn lemma_missing_stays(
    required: Seq<JsonView>,
    args: Seq<(Seq<char>, JsonView)>,
    i: nat,
    n: nat,
)
    requires
        i <= n,
        missing_field(required, args, i) is Some,
    ensures
        missing_field(required, args, n) == missing_field(required, args, i),
    decreases n,
{
    if i < n {
        lemma_missing_stays(required, args, i, (n - 1) as nat);
    }
}

fn check_unknown(properties: &Vec<(String, Json)>, args: &Vec<(String, Json)>) -> (r: Result<
    (),
    String,
>)
    ensures
        validation_view(r) == unknown_field(
            json::members_of(properties@),
            json::members_of(args@),
            args@.len(),
        ),
{
    let ghost props = json::members_of(properties@);
    let ghost given = json::members_of(args@);
    let mut i: usize = 0;
    while i < args.len()
        invariant
            i <= args.len(),
            props == json::members_of(properties@),
            given == json::members_of(args@),
            unknown_field(props, given, i as nat) is None,
        decreases args.len() - i,
    {
        assert(given[i as int].0 == args@[i as int].0@);
        if find_member(properties, args[i].0.as_str()).is_none() {
            proof {
                lemma_unknown_stays(props, given, i as nat + 1, given.len());
            }
            return Err(cat2("unknown field: ", args[i].0.as_str()));
        }
        i = i + 1;
    }
    Ok(())
}

proof fn lemma_unknown_stays(
    properties: Seq<(Seq<char>, JsonView)>,
    args: Seq<(Seq<char>, JsonView)>,
    i: nat,
    n: nat,
)
    requires
        i <= n,
        unknown_field(properties, args, i) is Some,
    ensures
        unknown_field(properties, args, n) == unknown_field(properties, args, i),
    decreases n,
{
    if i < n {
        lemma_unknown_stays(properties, args, i, (n - 1) as nat);
    }
}

/// Validate arguments against a JSON Schema (simplified: checks `type`,
/// `required`, `properties`, `additionalProperties`).
pub fn validate_arguments(schema: &Json, args: &Json) -> (r: Result<(), String>)
    ensures
        validation_view(r) == argument_error(schema@, args@),
        r is Ok <==> laws::are_accepted(schema@, args@),
{
    proof {
        laws::law_arguments_pass_as_the_schema_asks(schema@, args@);
    }
    let members = match schema {
        Json::Object(m) => m,
        _ => {
            return Err("schema must be an object".to_owned());
        },
    };
    let is_object = match find_member(members, "type") {
        Some(Json::Text(t)) => same(t.as_str(), "object"),
        _ => false,
    };
    if !is_object {
        return Ok(());
    }
    let given = match args {
        Json::Object(m) => m,
        _ => {
            return Err("arguments must be an object".to_owned());
        },
    };
    if let Some(Json::Array(required)) = find_member(members, "required") {
        if let Err(e) = check_required(required, given) {
            return Err(e);
        }
    }
    if let Some(Json::Bool(allowed)) = find_member(members, "additionalProperties") {
        if !*allowed {
            if let Some(Json::Object(properties)) = find_member(members, "properties") {
                return check_unknown(properties, given);
            }
        }
    }
    Ok(())
}

// ---------------------------------------------------------------------------
// Standard admin tools
// ---------------------------------------------------------------------------

/// The texts of string slices.
pub open spec fn strs(v: Seq<&'static str>) -> Seq<Seq<char>> {
    v.map_values(|s: &'static str| s@)
}

/// Texts as JSON strings.
pub open spec fn text_values(v: Seq<Seq<char>>) -> Seq<JsonView> {
    v.map_values(|s: Seq<char>| JsonView::Text { text: s })
}

/// The schema of a string.
pub open spec fn string_schema() -> JsonView {
    JsonView::Object { members: seq![("type"@, JsonView::Text { text: "string"@ })] }
}

/// The schema of a string with a description.
pub open spec fn described_schema(description: Seq<char>) -> JsonView {
    JsonView::Object {
        members: seq![
            ("description"@, JsonView::Text { text: description }),
            ("type"@, JsonView::Text { text: "string"@ }),
        ],
    }
}

/// The schema of one of several strings.
pub open spec fn enum_schema(values: Seq<Seq<char>>) -> JsonView {
    JsonView::Object {
        members: seq![
            ("enum"@, JsonView::Array { items: text_values(values) }),
            ("type"@, JsonView::Text { text: "string"@ }),
        ],
    }
}

/// The schema of an object of exactly these properties, some of them
/// required.
pub open spec fn object_schema(
    properties: Seq<(Seq<char>, JsonView)>,
    required: Seq<Seq<char>>,
) -> JsonView {
    let front = seq![
        ("additionalProperties"@, JsonView::Bool { value: false }),
        ("properties"@, JsonView::Object { members: properties }),
    ];
    let middle = if required.len() > 0 {
        front.push(("required"@, JsonView::Array { items: text_values(required) }))
    } else {
        front
    };
    JsonView::Object { members: middle.push(("type"@, JsonView::Text { text: "object"@ })) }
}

/// The standard admin tools.
pub open spec fn standard_list() -> Seq<Tool> {
    seq![
        Tool {
            name: "list_routes"@,
            description: "List all routes in the current gateway config"@,
            input_schema: object_schema(
                seq![],
                seq![],
            ),
            required_permission: Permission::Read,
        },
        Tool {
            name: "get_route"@,
            description: "Get a single route by name"@,
            input_schema: object_schema(
                seq![("name"@, described_schema("The route name"@))],
                seq!["name"@],
            ),
            required_permission: Permission::Read,
        },
        Tool {
            name: "create_route"@,
            description: "Create a new route"@,
            input_schema: object_schema(
                seq![("name"@, string_schema()), ("path"@, string_schema()), ("path_type"@, enum_schema(seq!["exact"@, "prefix"@, "regex"@])), ("service"@, string_schema())],
                seq!["name"@, "service"@, "path"@],
            ),
            required_permission: Permission::Write,
        },
        Tool {
            name: "update_route"@,
            description: "Update an existing route"@,
            input_schema: object_schema(
                seq![("name"@, string_schema()), ("path"@, string_schema()), ("service"@, string_schema())],
                seq!["name"@],
            ),
            required_permission: Permission::Write,
        },
        Tool {
            name: "delete_route"@,
            description: "Delete a route by name"@,
            input_schema: object_schema(
                seq![("name"@, string_schema())],
                seq!["name"@],
            ),
            required_permission: Permission::Write,
        },
        Tool {
            name: "list_services"@,
            description: "List all services in the current config"@,
            input_schema: object_schema(
                seq![],
                seq![],
            ),
            required_permission: Permission::Read,
        },
        Tool {
            name: "get_stats"@,
            description: "Get gateway stats (counters, histograms)"@,
            input_schema: object_schema(
                seq![],
                seq![],
            ),
            required_permission: Permission::Read,
        },
        Tool {
            name: "get_health"@,
            description: "Get gateway health status"@,
            input_schema: object_schema(
                seq![],
                seq![],
            ),
            required_permission: Permission::Read,
        },
        Tool {
            name: "get_config"@,
            description: "Dump the current gateway config as YAML"@,
            input_schema: object_schema(
                seq![],
                seq![],
            ),
            required_permission: Permission::Read,
        },
        Tool {
            name: "purge_cache"@,
            description: "Purge the cache for a route or all routes"@,
            input_schema: object_schema(
                seq![("route"@, described_schema("The route name (or 'all')"@))],
                seq!["route"@],
            ),
            required_permission: Permission::Admin,
        },
    ]
}

fn string_property() -> (j: Json)
    ensures
        j@ == string_schema(),
{
    let m = vec![("type".to_owned(), Json::Text("string".to_owned()))];
    assert(json::members_of(m@) =~= string_schema()->members);
    Json::Object(m)
}

fn described_property(description: &str) -> (j: Json)
    ensures
        j@ == described_schema(description@),
{
    let m = vec![
        ("description".to_owned(), Json::Text(description.to_owned())),
        ("type".to_owned(), Json::Text("string".to_owned())),
    ];
    assert(json::members_of(m@) =~= described_schema(description@)->members);
    Json::Object(m)
}

fn text_array(values: Vec<&'static str>) -> (j: Json)
    ensures
        j@ == (JsonView::Array { items: text_values(strs(values@)) }),
{
    let ghost all = text_values(strs(values@));
    let mut v: Vec<Json> = Vec::new();
    let mut i: usize = 0;
    while i < values.len()
        invariant
            i <= values.len(),
            v.len() == i,
            all == text_values(strs(values@)),
            forall|j: int| 0 <= j < i ==> (#[trigger] v@[j])@ == all[j],
        decreases values.len() - i,
    {
        v.push(Json::Text(values[i].to_owned()));
        i = i + 1;
    }
    assert(json::values_of(v@) =~= all);
    Json::Array(v)
}

fn enum_property(values: Vec<&'static str>) -> (j: Json)
    ensures
        j@ == enum_schema(strs(values@)),
{
    let m = vec![
        ("enum".to_owned(), text_array(values)),
        ("type".to_owned(), Json::Text("string".to_owned())),
    ];
    assert(json::members_of(m@) =~= enum_schema(strs(values@))->members);
    Json::Object(m)
}

fn make_tool(
    name: &str,
    description: &str,
    properties: Vec<(String, Json)>,
    required: Vec<&'static str>,
    permission: Permission,
) -> (t: ToolDefinition)
    ensures
        t@ == (Tool {
            name: name@,
            description: description@,
            input_schema: object_schema(json::members_of(properties@), strs(required@)),
            required_permission: permission,
        }),
{
    let ghost want = object_schema(json::members_of(properties@), strs(required@));
    let mut m: Vec<(String, Json)> = Vec::new();
    m.push(("additionalProperties".to_owned(), Json::Bool(false)));
    m.push(("properties".to_owned(), Json::Object(properties)));
    if required.len() > 0 {
        m.push(("required".to_owned(), text_array(required)));
    }
    m.push(("type".to_owned(), Json::Text("object".to_owned())));
    assert(json::members_of(m@) =~= want->members);
    ToolDefinition {
        name: name.to_owned(),
        description: description.to_owned(),
        input_schema: Json::Object(m),
        required_permission: permission,
    }
}

fn tool_list_routes() -> (t: ToolDefinition)
    ensures
        t@ == standard_list()[0],
{
    let mut properties: Vec<(String, Json)> = Vec::new();
    assert(json::members_of(properties@) =~= seq![]);
    let required: Vec<&'static str> = vec![];
    assert(strs(required@) =~= seq![]);
    make_tool(
        "list_routes",
        "List all routes in the current gateway config",
        properties,
        required,
        Permission::Read,
    )
}

fn tool_get_route() -> (t: ToolDefinition)
    ensures
        t@ == standard_list()[1],
{
    let mut properties: Vec<(String, Json)> = Vec::new();
    properties.push(("name".to_owned(), described_property("The route name")));
    assert(json::members_of(properties@) =~= seq![("name"@, described_schema("The route name"@))]);
    let required: Vec<&'static str> = vec!["name"];
    assert(strs(required@) =~= seq!["name"@]);
    make_tool(
        "get_route",
        "Get a single route by name",
        properties,
        required,
        Permission::Read,
    )
}

fn tool_create_route() -> (t: ToolDefinition)
    ensures
        t@ == standard_list()[2],
{
    let mut properties: Vec<(String, Json)> = Vec::new();
    properties.push(("name".to_owned(), string_property()));
    properties.push(("path".to_owned(), string_property()));
    let kinds: Vec<&'static str> = vec!["exact", "prefix", "regex"];
    assert(strs(kinds@) =~= seq!["exact"@, "prefix"@, "regex"@]);
    properties.push(("path_type".to_owned(), enum_property(kinds)));
    properties.push(("service".to_owned(), string_property()));
    assert(json::members_of(properties@) =~= seq![("name"@, string_schema()), ("path"@, string_schema()), ("path_type"@, enum_schema(seq!["exact"@, "prefix"@, "regex"@])), ("service"@, string_schema())]);
    let required: Vec<&'static str> = vec!["name", "service", "path"];
    assert(strs(required@) =~= seq!["name"@, "service"@, "path"@]);
    make_tool(
        "create_route",
        "Create a new route",
        properties,
        required,
        Permission::Write,
    )
}

fn tool_update_route() -> (t: ToolDefinition)
    ensures
        t@ == standard_list()[3],
{
    let mut properties: Vec<(String, Json)> = Vec::new();
    properties.push(("name".to_owned(), string_property()));
    properties.push(("path".to_owned(), string_property()));
    properties.push(("service".to_owned(), string_property()));
    assert(json::members_of(properties@) =~= seq![("name"@, string_schema()), ("path"@, string_schema()), ("service"@, string_schema())]);
    let required: Vec<&'static str> = vec!["name"];
    assert(strs(required@) =~= seq!["name"@]);
    make_tool(
        "update_route",
        "Update an existing route",
        properties,
        required,
        Permission::Write,
    )
}

fn tool_delete_route() -> (t: ToolDefinition)
    ensures
        t@ == standard_list()[4],
{
    let mut properties: Vec<(String, Json)> = Vec::new();
    properties.push(("name".to_owned(), string_property()));
    assert(json::members_of(properties@) =~= seq![("name"@, string_schema())]);
    let required: Vec<&'static str> = vec!["name"];
    assert(strs(required@) =~= seq!["name"@]);
    make_tool(
        "delete_route",
        "Delete a route by name",
        properties,
        required,
        Permission::Write,
    )
}

fn tool_list_services() -> (t: ToolDefinition)
    ensures
        t@ == standard_list()[5],
{
    let mut properties: Vec<(String, Json)> = Vec::new();
    assert(json::members_of(properties@) =~= seq![]);
    let required: Vec<&'static str> = vec![];
    assert(strs(required@) =~= seq![]);
    make_tool(
        "list_services",
        "List all services in the current config",
        properties,
        required,
        Permission::Read,
    )
}

fn tool_get_stats() -> (t: ToolDefinition)
    ensures
        t@ == standard_list()[6],
{
    let mut properties: Vec<(String, Json)> = Vec::new();
    assert(json::members_of(properties@) =~= seq![]);
    let required: Vec<&'static str> = vec![];
    assert(strs(required@) =~= seq![]);
    make_tool(
        "get_stats",
        "Get gateway stats (counters, histograms)",
        properties,
        required,
        Permission::Read,
    )
}

fn tool_get_health() -> (t: ToolDefinition)
    ensures
        t@ == standard_list()[7],
{
    let mut properties: Vec<(String, Json)> = Vec::new();
    assert(json::members_of(properties@) =~= seq![]);
    let required: Vec<&'static str> = vec![];
    assert(strs(required@) =~= seq![]);
    make_tool(
        "get_health",
        "Get gateway health status",
        properties,
        required,
        Permission::Read,
    )
}

fn tool_get_config() -> (t: ToolDefinition)
    ensures
        t@ == standard_list()[8],
{
    let mut properties: Vec<(String, Json)> = Vec::new();
    assert(json::members_of(properties@) =~= seq![]);
    let required: Vec<&'static str> = vec![];
    assert(strs(required@) =~= seq![]);
    make_tool(
        "get_config",
        "Dump the current gateway config as YAML",
        properties,
        required,
        Permission::Read,
    )
}

fn tool_purge_cache() -> (t: ToolDefinition)
    ensures
        t@ == standard_list()[9],
{
    let mut properties: Vec<(String, Json)> = Vec::new();
    properties.push(("route".to_owned(), described_property("The route name (or 'all')")));
    assert(json::members_of(properties@) =~= seq![("route"@, described_schema("The route name (or 'all')"@))]);
    let required: Vec<&'static str> = vec!["route"];
    assert(strs(required@) =~= seq!["route"@]);
    make_tool(
        "purge_cache",
        "Purge the cache for a route or all routes",
        properties,
        required,
        Permission::Admin,
    )
}

/// What tools are.
pub open spec fn tool_views(v: Seq<ToolDefinition>) -> Seq<Tool> {
    v.map_values(|t: ToolDefinition| t@)
}

/// The standard admin tools.
pub fn standard_tools() -> (v: Vec<ToolDefinition>)
    ensures
        tool_views(v@) == standard_list(),
{
    let v = vec![
        tool_list_routes(),
        tool_get_route(),
        tool_create_route(),
        tool_update_route(),
        tool_delete_route(),
        tool_list_services(),
        tool_get_stats(),
        tool_get_health(),
        tool_get_config(),
        tool_purge_cache(),
    ];
    assert(tool_views(v@) =~= standard_list());
    v
}

// ---------------------------------------------------------------------------
// Server
// ---------------------------------------------------------------------------

/// The server: holds tool definitions and checks tool calls.
pub struct McpServer {
    tools: Vec<ToolDefinition>,
}

/// A handler of tools: the caller implements this to actually execute them.
pub trait ToolHandler {
    /// Executes a tool.
    fn execute_tool(&self, name: &str, arguments: &Json) -> ToolCallResponse;
}

impl View for McpServer {
    type V = Seq<Tool>;

    closed spec fn view(&self) -> Seq<Tool> {
        tool_views(self.tools@)
    }
}

/// The first tool of a name.
pub open spec fn find_tool(v: Seq<Tool>, name: Seq<char>) -> Option<Tool>
    decreases v.len(),
{
    if v.len() == 0 {
        None
    } else if v[0].name == name {
        Some(v[0])
    } else {
        find_tool(v.skip(1), name)
    }
}

/// The tools that an agent may use.
pub open spec fn usable_tools(v: Seq<Tool>, agent: AgentIdentity) -> Seq<Tool> {
    v.filter(|t: Tool| agent.permissions@.contains(t.required_permission))
}

/// Why a call is refused, if it is.
pub open spec fn refusal_of(
    tools: Seq<Tool>,
    name: Seq<char>,
    arguments: JsonView,
    agent: AgentIdentity,
) -> Option<Response> {
    match find_tool(tools, name) {
        None => Some(refusal("unknown_tool"@, "unknown tool: "@ + name)),
        Some(tool) => if !agent.permissions@.contains(tool.required_permission) {
            Some(
                refusal(
                    "permission_denied"@,
                    "permission denied: tool '"@ + tool.name + "' requires "@ + permission_name(
                        tool.required_permission,
                    ) + ", agent '"@ + agent.name@ + "' has "@ + permission_list(
                        agent.permissions@,
                    ),
                ),
            )
        } else {
            match argument_error(tool.input_schema, arguments) {
                Some(e) => Some(refusal("invalid_arguments"@, "invalid arguments: "@ + e)),
                None => None,
            }
        },
    }
}

/// What references to tools refer to.
pub open spec fn listed(v: Seq<&ToolDefinition>) -> Seq<Tool> {
    v.map_values(|t: &ToolDefinition| t@)
}

impl McpServer {
    /// A server with the standard admin tools.
    pub fn new() -> (s: Self)
        ensures
            s@ == standard_list(),
    {
        McpServer { tools: standard_tools() }
    }

    /// List all available tools.
    pub fn list_tools(&self) -> (v: Vec<&ToolDefinition>)
        ensures
            listed(v@) == self@,
    {
        let mut v: Vec<&ToolDefinition> = Vec::new();
        let mut i: usize = 0;
        while i < self.tools.len()
            invariant
                i <= self.tools.len(),
                v.len() == i,
                forall|j: int| 0 <= j < i ==> *(#[trigger] v@[j]) == self.tools@[j],
            decreases self.tools.len() - i,
        {
            v.push(&self.tools[i]);
            i = i + 1;
        }
        assert(listed(v@) =~= self@);
        v
    }

    /// List tools available to an agent (filtered by permissions).
    pub fn list_tools_for(&self, agent: &AgentIdentity) -> (v: Vec<&ToolDefinition>)
        ensures
            listed(v@) == usable_tools(self@, *agent),
    {
        let ghost all = self@;
        let ghost p = |t: Tool| agent.permissions@.contains(t.required_permission);
        let mut v: Vec<&ToolDefinition> = Vec::new();
        let mut i: usize = 0;
        proof {
            lists::lemma_filter_ends(all, p);
            assert(listed(v@) =~= all.take(0).filter(p));
        }
        while i < self.tools.len()
            invariant
                i <= self.tools.len(),
                all == self@,
                p == (|t: Tool| agent.permissions@.contains(t.required_permission)),
                listed(v@) == all.take(i as int).filter(p),
            decreases self.tools.len() - i,
        {
            proof {
                lists::lemma_filter_step(all, p, i as int);
            }
            let t = &self.tools[i];
            assert(all[i as int] == t@);
            if agent.has_permission(t.required_permission) {
                assert(listed(v@.push(t)) =~= listed(v@).push(t@));
                v.push(t);
            }
            i = i + 1;
        }
        assert(all.take(i as int) =~= all);
        v
    }

    /// Get a tool definition by name.
    pub fn get_tool(&self, name: &str) -> (r: Option<&ToolDefinition>)
        ensures
            match (r, find_tool(self@, name@)) {
                (Some(t), Some(u)) => t@ == u,
                (None, None) => true,
                _ => false,
            },
    {
        let ghost all = self@;
        let mut i: usize = 0;
        assert(all.skip(0) =~= all);
        while i < self.tools.len()
            invariant
                i <= self.tools.len(),
                all == self@,
                all.len() == self.tools@.len(),
                find_tool(all, name@) == find_tool(all.skip(i as int), name@),
            decreases self.tools.len() - i,
        {
            assert(all.skip(i as int)[0] == self.tools@[i as int]@);
            assert(all.skip(i as int).skip(1) =~= all.skip(i + 1));
            if same(self.tools[i].name.as_str(), name) {
                return Some(&self.tools[i]);
            }
            i = i + 1;
        }
        None
    }

    /// Checks a call before it is executed: the tool must be known, the agent
    /// must have its permission, and the arguments must fit its schema. Gives
    /// the response of the refusal, if the call is refused.
    pub fn refuse_call(&self, request: &ToolCallRequest, agent: &AgentIdentity) -> (r: Option<
        ToolCallResponse,
    >)
        ensures
            match (r, refusal_of(self@, request.name@, request.arguments@, *agent)) {
                (Some(a), Some(b)) => a@ == b,
                (None, None) => true,
                _ => false,
            },
            laws::is_refusal(
                match r {
                    Some(a) => Some(a@),
                    None => None,
                },
                self@,
                request.name@,
                request.arguments@,
                *agent,
            ),
    {
        proof {
            laws::law_calls_go_through_or_are_refused(
                self@,
                request.name@,
                request.arguments@,
                *agent,
            );
        }
        let tool = match self.get_tool(request.name.as_str()) {
            Some(t) => t,
            None => {
                return Some(
                    refuse("unknown_tool", cat2("unknown tool: ", request.name.as_str())),
                );
            },
        };
        if !agent.has_permission(tool.required_permission) {
            let mut message = String::new();
            message.append("permission denied: tool '");
            message.append(tool.name.as_str());
            message.append("' requires ");
            message.append(tool.required_permission.name());
            message.append(", agent '");
            message.append(agent.name.as_str());
            message.append("' has ");
            message.append(agent.permissions_text().as_str());
            return Some(refuse("permission_denied", message));
        }
        if let Err(e) = validate_arguments(&tool.input_schema, &request.arguments) {
            return Some(
                refuse("invalid_arguments", cat2("invalid arguments: ", e.as_str())),
            );
        }
        None
    }

    /// Execute a tool call: check it, and hand it to the handler.
    pub fn execute<H: ToolHandler>(
        &self,
        request: &ToolCallRequest,
        agent: &AgentIdentity,
        handler: &H,
    ) -> (r: ToolCallResponse)
        ensures
            match refusal_of(self@, request.name@, request.arguments@, *agent) {
                Some(b) => r@ == b,
                None => exists|name: &str|
                    name@ == request.name@ && #[trigger] call_ensures(
                        H::execute_tool,
                        (handler, name, &request.arguments),
                        r,
                    ),
            },
    {
        match self.refuse_call(request, agent) {
            Some(r) => r,
            None => {
                let name = request.name.as_str();
                let r = handler.execute_tool(name, &request.arguments);
                assert(call_ensures(H::execute_tool, (handler, name, &request.arguments), r));
                r
            },
        }
    }

    /// The number of registered tools.
    pub fn tool_count(&self) -> (n: usize)
        ensures
            n == self@.len(),
    {
        self.tools.len()
    }
}

/// A simple tool handler for testing: returns canned responses.
pub struct MockToolHandler {
    responses: TextMap<Json>,
}

/// The canned response of a tool.
pub open spec fn canned(m: Map<Seq<char>, Json>, name: Seq<char>) -> Response {
    Response {
        success: true,
        result: if m.dom().contains(name) {
            m[name]@
        } else {
            JsonView::Text { text: "mock response for "@ + name }
        },
        error_code: None,
    }
}

impl MockToolHandler {
    /// The canned responses by tool name.
    pub closed spec fn responses(self) -> Map<Seq<char>, Json> {
        self.responses@
    }

    /// A handler without canned responses.
    pub fn new() -> (h: Self)
        ensures
            h.responses() == Map::<Seq<char>, Json>::empty(),
    {
        MockToolHandler { responses: TextMap::new() }
    }

    /// The handler with a canned response for a tool.
    pub fn with_response(self, tool_name: &str, response: Json) -> (h: Self)
        ensures
            h.responses() == self.responses().insert(tool_name@, response),
    {
        let mut responses = self.responses;
        responses.insert(tool_name.to_owned(), response);
        MockToolHandler { responses }
    }
}

impl ToolHandler for MockToolHandler {
    fn execute_tool(&self, name: &str, arguments: &Json) -> (r: ToolCallResponse)
        ensures
            r@ == canned(self.responses(), name@),
    {
        match self.responses.get(name) {
            Some(result) => ToolCallResponse {
                success: true,
                result: result.copy(),
                error_code: None,
            },
            None => ToolCallResponse {
                success: true,
                result: Json::Text(cat2("mock response for ", name)),
                error_code: None,
            },
        }
    }
}

// ---------------------------------------------------------------------------
// Laws
// ---------------------------------------------------------------------------

proof fn lemma_usable(v: Seq<Tool>, agent: AgentIdentity)
    ensures
        forall|i: int|
            0 <= i < usable_tools(v, agent).len() ==> agent.permissions@.contains(
                (#[trigger] usable_tools(v, agent)[i]).required_permission,
            ),
    decreases v.len(),
{
    reveal(Seq::filter);
    if v.len() > 0 {
        lemma_usable(v.drop_last(), agent);
        let before = usable_tools(v.drop_last(), agent);
        let all = usable_tools(v, agent);
        assert forall|i: int| 0 <= i < all.len() implies agent.permissions@.contains(
            (#[trigger] all[i]).required_permission,
        ) by {
            if i < before.len() {
                assert(all[i] == before[i]);
            }
        }
    }
}

/// An agent is only shown tools that it may use.
pub proof fn law_agents_see_only_what_they_may_use(v: Seq<Tool>, agent: AgentIdentity, i: int)
    requires
        0 <= i < usable_tools(v, agent).len(),
    ensures
        agent.permissions@.contains(usable_tools(v, agent)[i].required_permission),
{
    lemma_usable(v, agent);
}

/// A call beyond an agent's permissions never reaches the handler, whatever
/// its arguments are: it is answered as denied.
pub proof fn law_out_of_scope_calls_are_denied(
    tools: Seq<Tool>,
    name: Seq<char>,
    arguments: JsonView,
    agent: AgentIdentity,
)
    requires
        find_tool(tools, name) matches Some(t) && !agent.permissions@.contains(
            t.required_permission,
        ),
    ensures
        refusal_of(tools, name, arguments, agent) matches Some(r) && !r.success && r.error_code
            == Some("permission_denied"@),
{
}

/// No two standard tools share a name.
pub proof fn law_standard_tools_have_distinct_names(i: int, j: int)
    requires
        0 <= i < j < standard_list().len(),
    ensures
        standard_list()[i].name != standard_list()[j].name,
{
    reveal_strlit("list_routes");
    reveal_strlit("get_route");
    reveal_strlit("create_route");
    reveal_strlit("update_route");
    reveal_strlit("delete_route");
    reveal_strlit("list_services");
    reveal_strlit("get_stats");
    reveal_strlit("get_health");
    reveal_strlit("get_config");
    reveal_strlit("purge_cache");
    let a = standard_list()[i].name;
    let b = standard_list()[j].name;
    if a == b {
        assert(a.len() == b.len() && a[0] == b[0] && a[4] == b[4]);
    }
}

} // verus!
