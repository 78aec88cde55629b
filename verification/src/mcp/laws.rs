//! Who may call what, and with which arguments.

use vstd::prelude::*;

use crate::json;
use crate::json::JsonView;
use crate::mcp;
use crate::mcp::{AgentIdentity, Permission, Response, Tool};

verus! {

// ---------------------------------------------------------------------------
// Arguments
// ---------------------------------------------------------------------------

/// Whether members hold one of a name.
pub open spec fn has_member(m: Seq<(Seq<char>, JsonView)>, name: Seq<char>) -> bool {
    exists|i: int| 0 <= i < m.len() && (#[trigger] m[i]).0 == name
}

/// Whether a member is the first of its name.
pub open spec fn is_member(m: Seq<(Seq<char>, JsonView)>, name: Seq<char>, v: JsonView) -> bool {
    exists|i: int|
        0 <= i < m.len() && #[trigger] m[i] == (name, v) && forall|j: int|
            0 <= j < i ==> (#[trigger] m[j]).0 != name
}

/// A member is found by its name, and of several of one name the first.
pub proof fn law_members_are_found_by_name(m: Seq<(Seq<char>, JsonView)>, name: Seq<char>)
    ensures
        json::member_of(m, name) is Some <==> has_member(m, name),
        json::member_of(m, name) is Some ==> is_member(m, name, json::member_of(m, name)->Some_0),
    decreases m.len(),
{
    if m.len() > 0 {
        let t = m.skip(1);
        law_members_are_found_by_name(t, name);
        if m[0].0 == name {
            assert(m[0] == (name, m[0].1));
        } else {
            if has_member(t, name) {
                let i = choose|i: int| 0 <= i < t.len() && (#[trigger] t[i]).0 == name;
                assert(m[i + 1].0 == name);
                let v = json::member_of(t, name)->Some_0;
                let k = choose|k: int|
                    0 <= k < t.len() && #[trigger] t[k] == (name, v) && forall|j: int|
                        0 <= j < k ==> (#[trigger] t[j]).0 != name;
                assert(m[k + 1] == (name, v));
                assert forall|j: int| 0 <= j < k + 1 implies (#[trigger] m[j]).0 != name by {
                    if j > 0 {
                        assert(t[j - 1] == m[j]);
                    }
                }
            }
            if has_member(m, name) {
                let i = choose|i: int| 0 <= i < m.len() && (#[trigger] m[i]).0 == name;
                assert(t[i - 1].0 == name);
            }
        }
    }
}

/// Whether arguments are those that a schema asks for: it is an object; and if
/// it asks for an object, they are one, hold all that is required, and, where
/// nothing more is allowed, nothing that it does not name.
pub open spec fn are_accepted(schema: JsonView, args: JsonView) -> bool {
    &&& schema is Object
    &&& json::member(schema, "type"@) == Some(JsonView::Text { text: "object"@ }) ==> ({
        &&& args is Object
        &&& json::member(schema, "required"@) is Some && json::member(
            schema,
            "required"@,
        )->Some_0 is Array ==> forall|i: int|
            0 <= i < json::member(schema, "required"@)->Some_0->items.len() ==> is_given(
                #[trigger] json::member(schema, "required"@)->Some_0->items[i],
                args->members,
            )
        &&& json::member(schema, "additionalProperties"@) == Some(JsonView::Bool { value: false })
            && json::member(schema, "properties"@) is Some && json::member(
            schema,
            "properties"@,
        )->Some_0 is Object ==> forall|i: int|
            0 <= i < args->members.len() ==> has_member(
                json::member(schema, "properties"@)->Some_0->members,
                (#[trigger] args->members[i]).0,
            )
    })
}

/// Whether a required name is a text, and given.
pub open spec fn is_given(name: JsonView, args: Seq<(Seq<char>, JsonView)>) -> bool {
    name is Text && has_member(args, name->text)
}

proof fn lemma_missing(required: Seq<JsonView>, args: Seq<(Seq<char>, JsonView)>, n: nat)
    requires
        n <= required.len(),
    ensures
        mcp::missing_field(required, args, n) is None <==> forall|i: int|
            0 <= i < n ==> is_given(#[trigger] required[i], args),
    decreases n,
{
    if n > 0 {
        lemma_missing(required, args, (n - 1) as nat);
        if required[n - 1] is Text {
            law_members_are_found_by_name(args, required[n - 1]->text);
        }
    }
}

proof fn lemma_unknown(
    properties: Seq<(Seq<char>, JsonView)>,
    args: Seq<(Seq<char>, JsonView)>,
    n: nat,
)
    requires
        n <= args.len(),
    ensures
        mcp::unknown_field(properties, args, n) is None <==> forall|i: int|
            0 <= i < n ==> has_member(properties, (#[trigger] args[i]).0),
    decreases n,
{
    if n > 0 {
        lemma_unknown(properties, args, (n - 1) as nat);
        law_members_are_found_by_name(properties, args[n - 1].0);
    }
}

/// Arguments pass exactly if they are those that the schema asks for.
pub proof fn law_arguments_pass_as_the_schema_asks(schema: JsonView, args: JsonView)
    ensures
        mcp::argument_error(schema, args) is None <==> are_accepted(schema, args),
{
    if schema is Object && args is Object {
        let given = args->members;
        if let Some(JsonView::Array { items }) = json::member(schema, "required"@) {
            lemma_missing(items, given, items.len());
        }
        if let Some(JsonView::Object { members }) = json::member(schema, "properties"@) {
            lemma_unknown(members, given, given.len());
        }
    }
}

// ---------------------------------------------------------------------------
// Calls
// ---------------------------------------------------------------------------

/// Whether the tool at `i` is the first of a name.
pub open spec fn is_tool(tools: Seq<Tool>, name: Seq<char>, i: int) -> bool {
    &&& 0 <= i < tools.len()
    &&& tools[i].name == name
    &&& forall|j: int| 0 <= j < i ==> (#[trigger] tools[j]).name != name
}

/// Whether an agent holds a permission.
pub open spec fn may(agent: AgentIdentity, p: Permission) -> bool {
    exists|i: int| 0 <= i < agent.permissions@.len() && #[trigger] agent.permissions@[i] == p
}

proof fn lemma_find_tool(tools: Seq<Tool>, name: Seq<char>)
    ensures
        mcp::find_tool(tools, name) is None <==> forall|i: int| !#[trigger] is_tool(tools, name, i),
        mcp::find_tool(tools, name) is Some ==> exists|i: int|
            #[trigger] is_tool(tools, name, i) && mcp::find_tool(tools, name) == Some(tools[i]),
    decreases tools.len(),
{
    if tools.len() > 0 {
        if tools[0].name == name {
            assert(is_tool(tools, name, 0));
        } else {
            let t = tools.skip(1);
            lemma_find_tool(t, name);
            if mcp::find_tool(t, name) is Some {
                let i = choose|i: int|
                    #[trigger] is_tool(t, name, i) && mcp::find_tool(t, name) == Some(t[i]);
                assert forall|j: int| 0 <= j < i + 1 implies (#[trigger] tools[j]).name != name by {
                    if j > 0 {
                        assert(t[j - 1] == tools[j]);
                    }
                }
                assert(is_tool(tools, name, i + 1));
            } else {
                assert forall|i: int| !#[trigger] is_tool(tools, name, i) by {
                    if is_tool(tools, name, i) {
                        assert forall|j: int| 0 <= j < i - 1 implies (#[trigger] t[j]).name
                            != name by {
                            assert(t[j] == tools[j + 1]);
                        }
                        assert(is_tool(t, name, i - 1));
                    }
                }
            }
        }
    }
}

/// Whether a call is refused for the right reason, or not at all: it is
/// refused if the tool is not there, if the agent does not hold the permission
/// that it requires, or if its schema does not take the arguments.
pub open spec fn is_refusal(
    r: Option<Response>,
    tools: Seq<Tool>,
    name: Seq<char>,
    args: JsonView,
    agent: AgentIdentity,
) -> bool {
    &&& r is Some ==> !r->Some_0.success && r->Some_0.result is Text
    &&& (forall|i: int| !#[trigger] is_tool(tools, name, i)) ==> r is Some && r->Some_0.error_code
        == Some("unknown_tool"@)
    &&& forall|i: int| #[trigger]
        is_tool(tools, name, i) ==> {
            &&& !may(agent, tools[i].required_permission) ==> r is Some && r->Some_0.error_code
                == Some("permission_denied"@)
            &&& may(agent, tools[i].required_permission) && !are_accepted(
                tools[i].input_schema,
                args,
            ) ==> r is Some && r->Some_0.error_code == Some("invalid_arguments"@)
            &&& may(agent, tools[i].required_permission) && are_accepted(
                tools[i].input_schema,
                args,
            ) ==> r is None
        }
}

/// A call goes through exactly if the tool is there, the agent holds the
/// permission that it requires, and the arguments are those that its schema
/// asks for; it is refused for the first of these that fails.
pub proof fn law_calls_go_through_or_are_refused(
    tools: Seq<Tool>,
    name: Seq<char>,
    args: JsonView,
    agent: AgentIdentity,
)
    ensures
        is_refusal(mcp::refusal_of(tools, name, args, agent), tools, name, args, agent),
{
    lemma_find_tool(tools, name);
    assert forall|i: int| #[trigger] is_tool(tools, name, i) implies mcp::find_tool(tools, name)
        == Some(tools[i]) by {
        let k = choose|k: int|
            #[trigger] is_tool(tools, name, k) && mcp::find_tool(tools, name) == Some(tools[k]);
        assert(is_tool(tools, name, k));
        if i < k {
            assert(tools[i].name != name);
        }
        if k < i {
            assert(tools[k].name != name);
        }
    }
    if let Some(t) = mcp::find_tool(tools, name) {
        law_arguments_pass_as_the_schema_asks(t.input_schema, args);
        let p = t.required_permission;
        if agent.permissions@.contains(p) {
            let k = agent.permissions@.index_of(p);
            assert(agent.permissions@[k] == p);
        }
    }
}

/// An agent is shown exactly the tools whose permission it holds.
pub proof fn law_agents_see_what_they_may_use(tools: Seq<Tool>, agent: AgentIdentity, t: Tool)
    ensures
        mcp::usable_tools(tools, agent).contains(t) <==> tools.contains(t) && may(
            agent,
            t.required_permission,
        ),
    decreases tools.len(),
{
    reveal(Seq::filter);
    let held = |t: Tool| agent.permissions@.contains(t.required_permission);
    if tools.len() > 0 {
        let before = tools.drop_last();
        let x = tools.last();
        law_agents_see_what_they_may_use(before, agent, t);
        let u = mcp::usable_tools(before, agent);
        let v = mcp::usable_tools(tools, agent);
        assert(may(agent, x.required_permission) <==> agent.permissions@.contains(
            x.required_permission,
        )) by {
            if agent.permissions@.contains(x.required_permission) {
                let k = agent.permissions@.index_of(x.required_permission);
                assert(agent.permissions@[k] == x.required_permission);
            }
        }
        assert(tools.contains(t) <==> before.contains(t) || t == x) by {
            if before.contains(t) {
                let k = before.index_of(t);
                assert(tools[k] == t);
            }
            assert(tools[tools.len() - 1] == x);
            if tools.contains(t) && t != x {
                let k = tools.index_of(t);
                assert(before[k] == t);
            }
        }
        if held(x) {
            assert(v == u.push(x));
            assert(v.contains(t) <==> u.contains(t) || t == x) by {
                if u.contains(t) {
                    let k = u.index_of(t);
                    assert(v[k] == t);
                }
                assert(v[u.len() as int] == x);
                if v.contains(t) && t != x {
                    let k = v.index_of(t);
                    assert(u[k] == t);
                }
            }
        } else {
            assert(v == u);
        }
    }
}

// ---------------------------------------------------------------------------
// The standard tools
// ---------------------------------------------------------------------------

/// Whether a tool of the name takes an agent that may read.
pub open spec fn is_reading(name: Seq<char>) -> bool {
    ||| name == "list_routes"@
    ||| name == "get_route"@
    ||| name == "list_services"@
    ||| name == "get_stats"@
    ||| name == "get_health"@
    ||| name == "get_config"@
}

/// Whether a tool of the name takes an agent that may write.
pub open spec fn is_writing(name: Seq<char>) -> bool {
    ||| name == "create_route"@
    ||| name == "update_route"@
    ||| name == "delete_route"@
}

/// Whether tools hold one of a name.
pub open spec fn offers(tools: Seq<Tool>, name: Seq<char>) -> bool {
    exists|i: int| 0 <= i < tools.len() && (#[trigger] tools[i]).name == name
}

/// The standard tools: those that read take the permission to read, those that
/// change routes that to write, and purging the cache that to administer.
/// Each takes an object, and nothing that it does not name.
pub proof fn law_standard_tools_take_their_permission()
    ensures
        ({
            let tools = mcp::standard_list();
            &&& tools.len() == 10
            &&& forall|i: int|
                0 <= i < tools.len() ==> {
                    let t = #[trigger] tools[i];
                    &&& t.required_permission is Read ==> is_reading(t.name)
                    &&& t.required_permission is Write ==> is_writing(t.name)
                    &&& t.required_permission is Admin ==> t.name == "purge_cache"@
                    &&& t.input_schema is Object
                }
            &&& forall|name: Seq<char>| #[trigger]
                offers(tools, name) <==> is_reading(name) || is_writing(name) || name
                    == "purge_cache"@
        }),
{
    let tools = mcp::standard_list();
    assert(tools[0].name == "list_routes"@ && tools[0].required_permission is Read);
    assert(tools[1].name == "get_route"@ && tools[1].required_permission is Read);
    assert(tools[2].name == "create_route"@ && tools[2].required_permission is Write);
    assert(tools[3].name == "update_route"@ && tools[3].required_permission is Write);
    assert(tools[4].name == "delete_route"@ && tools[4].required_permission is Write);
    assert(tools[5].name == "list_services"@ && tools[5].required_permission is Read);
    assert(tools[6].name == "get_stats"@ && tools[6].required_permission is Read);
    assert(tools[7].name == "get_health"@ && tools[7].required_permission is Read);
    assert(tools[8].name == "get_config"@ && tools[8].required_permission is Read);
    assert(tools[9].name == "purge_cache"@ && tools[9].required_permission is Admin);
    assert forall|name: Seq<char>| #[trigger] offers(tools, name) <==> is_reading(name)
        || is_writing(name) || name == "purge_cache"@ by {}
}

/// Whether a schema requires a field.
pub open spec fn requires_field(schema: JsonView, field: Seq<char>) -> bool {
    &&& json::member(schema, "required"@) is Some
    &&& json::member(schema, "required"@)->Some_0 is Array
    &&& json::member(schema, "required"@)->Some_0->items.contains(JsonView::Text { text: field })
}

/// Whether a tool of the name needs a field: the name of the route to get, to
/// change or to delete; name, service and path of one to create; and the route
/// to purge.
pub open spec fn needs_field(tool: Seq<char>, field: Seq<char>) -> bool {
    ||| field == "name"@ && (tool == "get_route"@ || tool == "create_route"@ || tool
        == "update_route"@ || tool == "delete_route"@)
    ||| field == "service"@ && tool == "create_route"@
    ||| field == "path"@ && tool == "create_route"@
    ||| field == "route"@ && tool == "purge_cache"@
}

proof fn lemma_object_schema(
    properties: Seq<(Seq<char>, JsonView)>,
    required: Seq<Seq<char>>,
    field: Seq<char>,
)
    ensures
        ({
            let s = mcp::object_schema(properties, required);
            &&& s is Object
            &&& json::member(s, "type"@) == Some(JsonView::Text { text: "object"@ })
            &&& json::member(s, "additionalProperties"@) == Some(JsonView::Bool { value: false })
            &&& json::member(s, "properties"@) == Some(JsonView::Object { members: properties })
            &&& requires_field(s, field) <==> required.contains(field)
        }),
{
    reveal_strlit("type");
    reveal_strlit("additionalProperties");
    reveal_strlit("properties");
    reveal_strlit("required");
    let m = mcp::object_schema(properties, required)->members;
    assert("type"@.len() == 4 && "additionalProperties"@.len() == 20 && "properties"@.len() == 10
        && "required"@.len() == 8);
    let n = m.len() as int;
    reveal_with_fuel(json::member_of, 5);
    assert(m.skip(1).skip(1) =~= m.skip(2));
    assert(m.skip(2).skip(1) =~= m.skip(3));
    assert(m[0].0 == "additionalProperties"@);
    assert(m[1].0 == "properties"@);
    let items = mcp::text_values(required);
    if required.len() > 0 {
        assert(m.len() == 4);
        assert(m.skip(3).skip(1) =~= m.skip(4));
        assert(m[2].0 == "required"@ && m[3].0 == "type"@);
        assert(m.skip(1)[0] == m[1] && m.skip(2)[0] == m[2] && m.skip(3)[0] == m[3]);
        if required.contains(field) {
            let k = required.index_of(field);
            assert(items[k] == JsonView::Text { text: field });
        }
        if items.contains(JsonView::Text { text: field }) {
            let k = items.index_of(JsonView::Text { text: field });
            assert(required[k] == field);
        }
    } else {
        assert(m.len() == 3);
        assert(m[2].0 == "type"@);
        assert(m.skip(1)[0] == m[1] && m.skip(2)[0] == m[2]);
        assert(m.skip(3).len() == 0);
    }
}

/// Each standard tool takes an object with the fields that it needs, and with
/// no field that it does not name.
pub proof fn law_standard_tools_need_their_fields(i: int, field: Seq<char>)
    requires
        0 <= i < mcp::standard_list().len(),
    ensures
        ({
            let t = mcp::standard_list()[i];
            &&& json::member(t.input_schema, "type"@) == Some(JsonView::Text { text: "object"@ })
            &&& json::member(t.input_schema, "additionalProperties"@) == Some(
                JsonView::Bool { value: false },
            )
            &&& json::member(t.input_schema, "properties"@) is Some
            &&& json::member(t.input_schema, "properties"@)->Some_0 is Object
            &&& requires_field(t.input_schema, field) <==> needs_field(t.name, field)
        }),
{
    let t = mcp::standard_list()[i];
    lemma_names_differ();
    let plain = mcp::string_schema();
    let none_required = Seq::<Seq<char>>::empty();
    lemma_object_schema(seq![], seq![], field);
    lemma_object_schema(
        seq![("name"@, mcp::described_schema("The route name"@))],
        seq!["name"@],
        field,
    );
    lemma_object_schema(
        seq![
            ("name"@, plain),
            ("path"@, plain),
            ("path_type"@, mcp::enum_schema(seq!["exact"@, "prefix"@, "regex"@])),
            ("service"@, plain),
        ],
        seq!["name"@, "service"@, "path"@],
        field,
    );
    lemma_object_schema(
        seq![("name"@, plain), ("path"@, plain), ("service"@, plain)],
        seq!["name"@],
        field,
    );
    lemma_object_schema(seq![("name"@, plain)], seq!["name"@], field);
    lemma_object_schema(
        seq![("route"@, mcp::described_schema("The route name (or 'all')"@))],
        seq!["route"@],
        field,
    );
    let one = seq!["name"@];
    let three = seq!["name"@, "service"@, "path"@];
    let purge = seq!["route"@];
    assert(one[0] == "name"@ && purge[0] == "route"@);
    assert(three[0] == "name"@ && three[1] == "service"@ && three[2] == "path"@);
    assert(one.contains(field) <==> field == "name"@);
    assert(three.contains(field) <==> field == "name"@ || field == "service"@ || field == "path"@);
    assert(purge.contains(field) <==> field == "route"@);
    assert(!none_required.contains(field));
}

proof fn lemma_names_differ()
    ensures
        forall|i: int, j: int|
            0 <= i < j < mcp::standard_list().len() ==> (#[trigger] mcp::standard_list()[i]).name
                != (#[trigger] mcp::standard_list()[j]).name,
        mcp::standard_list()[1].name == "get_route"@,
        mcp::standard_list()[2].name == "create_route"@,
        mcp::standard_list()[3].name == "update_route"@,
        mcp::standard_list()[4].name == "delete_route"@,
        mcp::standard_list()[9].name == "purge_cache"@,
{
    assert forall|i: int, j: int| 0 <= i < j < mcp::standard_list().len() implies (
    #[trigger] mcp::standard_list()[i]).name != (#[trigger] mcp::standard_list()[j]).name by {
        mcp::law_standard_tools_have_distinct_names(i, j);
    }
}

} // verus!
