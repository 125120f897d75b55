use vstd::prelude::*;
use crate::header_field::HeaderFieldMap;
use crate::header_field::Registration;
use crate::header_field::Registry;
use crate::header_field::SchemaError;
use crate::header_field::check_unique;
use crate::header_field::FieldKind;
use crate::laws::no_dup;
use crate::laws::paths_of;
use crate::schema::Member;
use crate::schema::Schema;
use crate::schema::Variant;
use crate::schema::nested_below;
use crate::schema::child_path;
use crate::schema::reg_entries;
use crate::schema::reg_entries_members;
use crate::schema::reg_subtrees;
use crate::schema::reg_subtrees_members;

verus! {

/// The zenoh protocol: its message hierarchy as one schema value, from
/// which registration and rendering both derive. The `is_..._schema`
/// predicates pin each type's shape — member names, order, variant names,
/// and nesting — so the built schema is fixed up to the view of its
/// strings, and so is everything registration derives from it.
pub struct ZenohProtocol;

/// One leaf member under the given name.
pub open spec fn leaf_member(m: Member, name: Seq<char>) -> bool {
    m.name@ == name && m.schema is Leaf
}

/// The shape of the init syn message type.
pub open spec fn is_init_syn_schema(s: Schema) -> bool {
    &&& s matches Schema::Struct { members }
    &&& members@.len() == 9
    &&& leaf_member(members@[0], "version"@)
    &&& leaf_member(members@[1], "whatami"@)
    &&& leaf_member(members@[2], "zid"@)
    &&& leaf_member(members@[3], "resolution"@)
    &&& leaf_member(members@[4], "batch_size"@)
    &&& leaf_member(members@[5], "ext_qos"@)
    &&& leaf_member(members@[6], "ext_qos_link"@)
    &&& leaf_member(members@[7], "ext_auth"@)
    &&& leaf_member(members@[8], "ext_mlink"@)
}

fn init_syn_schema() -> (s: Schema)
    ensures
        is_init_syn_schema(s),
{
    Schema::structure(vec![
            Member::leaf("version"),
            Member::leaf("whatami"),
            Member::leaf("zid"),
            Member::leaf("resolution"),
            Member::leaf("batch_size"),
            Member::leaf("ext_qos"),
            Member::leaf("ext_qos_link"),
            Member::leaf("ext_auth"),
            Member::leaf("ext_mlink"),
        ])
}

/// The shape of the init ack message type.
pub open spec fn is_init_ack_schema(s: Schema) -> bool {
    &&& s matches Schema::Struct { members }
    &&& members@.len() == 10
    &&& leaf_member(members@[0], "version"@)
    &&& leaf_member(members@[1], "whatami"@)
    &&& leaf_member(members@[2], "zid"@)
    &&& leaf_member(members@[3], "resolution"@)
    &&& leaf_member(members@[4], "batch_size"@)
    &&& leaf_member(members@[5], "cookie"@)
    &&& leaf_member(members@[6], "ext_qos"@)
    &&& leaf_member(members@[7], "ext_qos_link"@)
    &&& leaf_member(members@[8], "ext_auth"@)
    &&& leaf_member(members@[9], "ext_mlink"@)
}

fn init_ack_schema() -> (s: Schema)
    ensures
        is_init_ack_schema(s),
{
    Schema::structure(vec![
            Member::leaf("version"),
            Member::leaf("whatami"),
            Member::leaf("zid"),
            Member::leaf("resolution"),
            Member::leaf("batch_size"),
            Member::leaf("cookie"),
            Member::leaf("ext_qos"),
            Member::leaf("ext_qos_link"),
            Member::leaf("ext_auth"),
            Member::leaf("ext_mlink"),
        ])
}

/// The shape of the open syn message type.
pub open spec fn is_open_syn_schema(s: Schema) -> bool {
    &&& s matches Schema::Struct { members }
    &&& members@.len() == 6
    &&& leaf_member(members@[0], "lease"@)
    &&& leaf_member(members@[1], "initial_sn"@)
    &&& leaf_member(members@[2], "cookie"@)
    &&& leaf_member(members@[3], "ext_qos"@)
    &&& leaf_member(members@[4], "ext_auth"@)
    &&& leaf_member(members@[5], "ext_mlink"@)
}

fn open_syn_schema() -> (s: Schema)
    ensures
        is_open_syn_schema(s),
{
    Schema::structure(vec![
            Member::leaf("lease"),
            Member::leaf("initial_sn"),
            Member::leaf("cookie"),
            Member::leaf("ext_qos"),
            Member::leaf("ext_auth"),
            Member::leaf("ext_mlink"),
        ])
}

/// The shape of the open ack message type.
pub open spec fn is_open_ack_schema(s: Schema) -> bool {
    &&& s matches Schema::Struct { members }
    &&& members@.len() == 5
    &&& leaf_member(members@[0], "lease"@)
    &&& leaf_member(members@[1], "initial_sn"@)
    &&& leaf_member(members@[2], "ext_qos"@)
    &&& leaf_member(members@[3], "ext_auth"@)
    &&& leaf_member(members@[4], "ext_mlink"@)
}

fn open_ack_schema() -> (s: Schema)
    ensures
        is_open_ack_schema(s),
{
    Schema::structure(vec![
            Member::leaf("lease"),
            Member::leaf("initial_sn"),
            Member::leaf("ext_qos"),
            Member::leaf("ext_auth"),
            Member::leaf("ext_mlink"),
        ])
}

/// The shape of the close message type.
pub open spec fn is_close_schema(s: Schema) -> bool {
    &&& s matches Schema::Struct { members }
    &&& members@.len() == 2
    &&& leaf_member(members@[0], "reason"@)
    &&& leaf_member(members@[1], "session"@)
}

fn close_schema() -> (s: Schema)
    ensures
        is_close_schema(s),
{
    Schema::structure(vec![
            Member::leaf("reason"),
            Member::leaf("session"),
        ])
}

/// The shape of the keep alive message type.
pub open spec fn is_keep_alive_schema(s: Schema) -> bool {
    s matches Schema::Struct { members } && members@.len() == 0
}

fn keep_alive_schema() -> (s: Schema)
    ensures
        is_keep_alive_schema(s),
{
    Schema::structure(Vec::new())
}

/// The shape of the put message type.
pub open spec fn is_put_schema(s: Schema) -> bool {
    &&& s matches Schema::Struct { members }
    &&& members@.len() == 5
    &&& leaf_member(members@[0], "timestamp"@)
    &&& leaf_member(members@[1], "encoding"@)
    &&& leaf_member(members@[2], "ext_sinfo"@)
    &&& leaf_member(members@[3], "ext_unknown"@)
    &&& leaf_member(members@[4], "payload"@)
}

fn put_schema() -> (s: Schema)
    ensures
        is_put_schema(s),
{
    Schema::structure(vec![
            Member::leaf("timestamp"),
            Member::leaf("encoding"),
            Member::leaf("ext_sinfo"),
            Member::leaf("ext_unknown"),
            Member::leaf("payload"),
        ])
}

/// The shape of the del message type.
pub open spec fn is_del_schema(s: Schema) -> bool {
    &&& s matches Schema::Struct { members }
    &&& members@.len() == 3
    &&& leaf_member(members@[0], "timestamp"@)
    &&& leaf_member(members@[1], "ext_sinfo"@)
    &&& leaf_member(members@[2], "ext_unknown"@)
}

fn del_schema() -> (s: Schema)
    ensures
        is_del_schema(s),
{
    Schema::structure(vec![
            Member::leaf("timestamp"),
            Member::leaf("ext_sinfo"),
            Member::leaf("ext_unknown"),
        ])
}

/// The shape of the query message type.
pub open spec fn is_query_schema(s: Schema) -> bool {
    &&& s matches Schema::Struct { members }
    &&& members@.len() == 5
    &&& leaf_member(members@[0], "parameters"@)
    &&& leaf_member(members@[1], "consolidation"@)
    &&& leaf_member(members@[2], "ext_sinfo"@)
    &&& leaf_member(members@[3], "ext_body"@)
    &&& leaf_member(members@[4], "ext_unknown"@)
}

fn query_schema() -> (s: Schema)
    ensures
        is_query_schema(s),
{
    Schema::structure(vec![
            Member::leaf("parameters"),
            Member::leaf("consolidation"),
            Member::leaf("ext_sinfo"),
            Member::leaf("ext_body"),
            Member::leaf("ext_unknown"),
        ])
}

/// The shape of the reply message type.
pub open spec fn is_reply_schema(s: Schema) -> bool {
    &&& s matches Schema::Struct { members }
    &&& members@.len() == 3
    &&& leaf_member(members@[0], "consolidation"@)
    &&& leaf_member(members@[1], "ext_unknown"@)
    &&& leaf_member(members@[2], "payload"@)
}

fn reply_schema() -> (s: Schema)
    ensures
        is_reply_schema(s),
{
    Schema::structure(vec![
            Member::leaf("consolidation"),
            Member::leaf("ext_unknown"),
            Member::leaf("payload"),
        ])
}

/// The shape of the err message type.
pub open spec fn is_err_schema(s: Schema) -> bool {
    &&& s matches Schema::Struct { members }
    &&& members@.len() == 2
    &&& leaf_member(members@[0], "ext_sinfo"@)
    &&& leaf_member(members@[1], "ext_unknown"@)
}

fn err_schema() -> (s: Schema)
    ensures
        is_err_schema(s),
{
    Schema::structure(vec![
            Member::leaf("ext_sinfo"),
            Member::leaf("ext_unknown"),
        ])
}

/// The shape of the PushBody type.
pub open spec fn is_push_body_schema(s: Schema) -> bool {
    &&& s matches Schema::Enum { name, variants }
    &&& name@ == "PushBody"@
    &&& variants@.len() == 2
    &&& variants@[0].name@ == "Put"@
    &&& is_put_schema(variants@[0].schema)
    &&& variants@[1].name@ == "Del"@
    &&& is_del_schema(variants@[1].schema)
}

fn push_body_schema() -> (s: Schema)
    ensures
        is_push_body_schema(s),
{
    Schema::union(
        "PushBody",
        vec![
            Variant::of("Put", put_schema()),
            Variant::of("Del", del_schema()),
        ],
    )
}

/// The shape of the RequestBody type.
pub open spec fn is_request_body_schema(s: Schema) -> bool {
    &&& s matches Schema::Enum { name, variants }
    &&& name@ == "RequestBody"@
    &&& variants@.len() == 1
    &&& variants@[0].name@ == "Query"@
    &&& is_query_schema(variants@[0].schema)
}

fn request_body_schema() -> (s: Schema)
    ensures
        is_request_body_schema(s),
{
    Schema::union(
        "RequestBody",
        vec![
            Variant::of("Query", query_schema()),
        ],
    )
}

/// The shape of the ResponseBody type.
pub open spec fn is_response_body_schema(s: Schema) -> bool {
    &&& s matches Schema::Enum { name, variants }
    &&& name@ == "ResponseBody"@
    &&& variants@.len() == 2
    &&& variants@[0].name@ == "Reply"@
    &&& is_reply_schema(variants@[0].schema)
    &&& variants@[1].name@ == "Err"@
    &&& is_err_schema(variants@[1].schema)
}

fn response_body_schema() -> (s: Schema)
    ensures
        is_response_body_schema(s),
{
    Schema::union(
        "ResponseBody",
        vec![
            Variant::of("Reply", reply_schema()),
            Variant::of("Err", err_schema()),
        ],
    )
}

/// The shape of the push message type.
pub open spec fn is_push_schema(s: Schema) -> bool {
    &&& s matches Schema::Struct { members }
    &&& members@.len() == 5
    &&& leaf_member(members@[0], "wire_expr"@)
    &&& leaf_member(members@[1], "ext_qos"@)
    &&& leaf_member(members@[2], "ext_tstamp"@)
    &&& leaf_member(members@[3], "ext_nodeid"@)
    &&& members@[4].name@ == "payload"@
    &&& (members@[4].schema matches Schema::Expand { inner } && is_push_body_schema(*inner))
}

fn push_schema() -> (s: Schema)
    ensures
        is_push_schema(s),
{
    Schema::structure(
        vec![
            Member::leaf("wire_expr"),
            Member::leaf("ext_qos"),
            Member::leaf("ext_tstamp"),
            Member::leaf("ext_nodeid"),
            Member::of("payload", Schema::expand(push_body_schema())),
        ],
    )
}

/// The shape of the request message type.
pub open spec fn is_request_schema(s: Schema) -> bool {
    &&& s matches Schema::Struct { members }
    &&& members@.len() == 9
    &&& leaf_member(members@[0], "id"@)
    &&& leaf_member(members@[1], "wire_expr"@)
    &&& leaf_member(members@[2], "ext_qos"@)
    &&& leaf_member(members@[3], "ext_tstamp"@)
    &&& leaf_member(members@[4], "ext_nodeid"@)
    &&& leaf_member(members@[5], "ext_target"@)
    &&& leaf_member(members@[6], "ext_budget"@)
    &&& leaf_member(members@[7], "ext_timeout"@)
    &&& members@[8].name@ == "payload"@
    &&& (members@[8].schema matches Schema::Expand { inner } && is_request_body_schema(*inner))
}

fn request_schema() -> (s: Schema)
    ensures
        is_request_schema(s),
{
    Schema::structure(
        vec![
            Member::leaf("id"),
            Member::leaf("wire_expr"),
            Member::leaf("ext_qos"),
            Member::leaf("ext_tstamp"),
            Member::leaf("ext_nodeid"),
            Member::leaf("ext_target"),
            Member::leaf("ext_budget"),
            Member::leaf("ext_timeout"),
            Member::of("payload", Schema::expand(request_body_schema())),
        ],
    )
}

/// The shape of the response message type.
pub open spec fn is_response_schema(s: Schema) -> bool {
    &&& s matches Schema::Struct { members }
    &&& members@.len() == 6
    &&& leaf_member(members@[0], "rid"@)
    &&& leaf_member(members@[1], "wire_expr"@)
    &&& leaf_member(members@[2], "ext_qos"@)
    &&& leaf_member(members@[3], "ext_tstamp"@)
    &&& leaf_member(members@[4], "ext_respid"@)
    &&& members@[5].name@ == "payload"@
    &&& (members@[5].schema matches Schema::Expand { inner } && is_response_body_schema(*inner))
}

fn response_schema() -> (s: Schema)
    ensures
        is_response_schema(s),
{
    Schema::structure(
        vec![
            Member::leaf("rid"),
            Member::leaf("wire_expr"),
            Member::leaf("ext_qos"),
            Member::leaf("ext_tstamp"),
            Member::leaf("ext_respid"),
            Member::of("payload", Schema::expand(response_body_schema())),
        ],
    )
}

/// The shape of the response final message type.
pub open spec fn is_response_final_schema(s: Schema) -> bool {
    &&& s matches Schema::Struct { members }
    &&& members@.len() == 3
    &&& leaf_member(members@[0], "rid"@)
    &&& leaf_member(members@[1], "ext_qos"@)
    &&& leaf_member(members@[2], "ext_tstamp"@)
}

fn response_final_schema() -> (s: Schema)
    ensures
        is_response_final_schema(s),
{
    Schema::structure(vec![
            Member::leaf("rid"),
            Member::leaf("ext_qos"),
            Member::leaf("ext_tstamp"),
        ])
}

/// The shape of the interest message type.
pub open spec fn is_interest_schema(s: Schema) -> bool {
    &&& s matches Schema::Struct { members }
    &&& members@.len() == 7
    &&& leaf_member(members@[0], "id"@)
    &&& leaf_member(members@[1], "mode"@)
    &&& leaf_member(members@[2], "options"@)
    &&& leaf_member(members@[3], "wire_expr"@)
    &&& leaf_member(members@[4], "ext_qos"@)
    &&& leaf_member(members@[5], "ext_tstamp"@)
    &&& leaf_member(members@[6], "ext_nodeid"@)
}

fn interest_schema() -> (s: Schema)
    ensures
        is_interest_schema(s),
{
    Schema::structure(vec![
            Member::leaf("id"),
            Member::leaf("mode"),
            Member::leaf("options"),
            Member::leaf("wire_expr"),
            Member::leaf("ext_qos"),
            Member::leaf("ext_tstamp"),
            Member::leaf("ext_nodeid"),
        ])
}

/// The shape of the declare key expr message type.
pub open spec fn is_declare_key_expr_schema(s: Schema) -> bool {
    &&& s matches Schema::Struct { members }
    &&& members@.len() == 2
    &&& leaf_member(members@[0], "id"@)
    &&& leaf_member(members@[1], "wire_expr"@)
}

fn declare_key_expr_schema() -> (s: Schema)
    ensures
        is_declare_key_expr_schema(s),
{
    Schema::structure(vec![
            Member::leaf("id"),
            Member::leaf("wire_expr"),
        ])
}

/// The shape of the undeclare key expr message type.
pub open spec fn is_undeclare_key_expr_schema(s: Schema) -> bool {
    &&& s matches Schema::Struct { members }
    &&& members@.len() == 1
    &&& leaf_member(members@[0], "id"@)
}

fn undeclare_key_expr_schema() -> (s: Schema)
    ensures
        is_undeclare_key_expr_schema(s),
{
    Schema::structure(vec![
            Member::leaf("id"),
        ])
}

/// The shape of the declare subscriber message type.
pub open spec fn is_declare_subscriber_schema(s: Schema) -> bool {
    &&& s matches Schema::Struct { members }
    &&& members@.len() == 2
    &&& leaf_member(members@[0], "id"@)
    &&& leaf_member(members@[1], "wire_expr"@)
}

fn declare_subscriber_schema() -> (s: Schema)
    ensures
        is_declare_subscriber_schema(s),
{
    Schema::structure(vec![
            Member::leaf("id"),
            Member::leaf("wire_expr"),
        ])
}

/// The shape of the undeclare subscriber message type.
pub open spec fn is_undeclare_subscriber_schema(s: Schema) -> bool {
    &&& s matches Schema::Struct { members }
    &&& members@.len() == 2
    &&& leaf_member(members@[0], "id"@)
    &&& leaf_member(members@[1], "ext_wire_expr"@)
}

fn undeclare_subscriber_schema() -> (s: Schema)
    ensures
        is_undeclare_subscriber_schema(s),
{
    Schema::structure(vec![
            Member::leaf("id"),
            Member::leaf("ext_wire_expr"),
        ])
}

/// The shape of the declare queryable message type.
pub open spec fn is_declare_queryable_schema(s: Schema) -> bool {
    &&& s matches Schema::Struct { members }
    &&& members@.len() == 3
    &&& leaf_member(members@[0], "id"@)
    &&& leaf_member(members@[1], "wire_expr"@)
    &&& leaf_member(members@[2], "ext_info"@)
}

fn declare_queryable_schema() -> (s: Schema)
    ensures
        is_declare_queryable_schema(s),
{
    Schema::structure(vec![
            Member::leaf("id"),
            Member::leaf("wire_expr"),
            Member::leaf("ext_info"),
        ])
}

/// The shape of the undeclare queryable message type.
pub open spec fn is_undeclare_queryable_schema(s: Schema) -> bool {
    &&& s matches Schema::Struct { members }
    &&& members@.len() == 2
    &&& leaf_member(members@[0], "id"@)
    &&& leaf_member(members@[1], "ext_wire_expr"@)
}

fn undeclare_queryable_schema() -> (s: Schema)
    ensures
        is_undeclare_queryable_schema(s),
{
    Schema::structure(vec![
            Member::leaf("id"),
            Member::leaf("ext_wire_expr"),
        ])
}

/// The shape of the declare token message type.
pub open spec fn is_declare_token_schema(s: Schema) -> bool {
    &&& s matches Schema::Struct { members }
    &&& members@.len() == 2
    &&& leaf_member(members@[0], "id"@)
    &&& leaf_member(members@[1], "wire_expr"@)
}

fn declare_token_schema() -> (s: Schema)
    ensures
        is_declare_token_schema(s),
{
    Schema::structure(vec![
            Member::leaf("id"),
            Member::leaf("wire_expr"),
        ])
}

/// The shape of the undeclare token message type.
pub open spec fn is_undeclare_token_schema(s: Schema) -> bool {
    &&& s matches Schema::Struct { members }
    &&& members@.len() == 2
    &&& leaf_member(members@[0], "id"@)
    &&& leaf_member(members@[1], "ext_wire_expr"@)
}

fn undeclare_token_schema() -> (s: Schema)
    ensures
        is_undeclare_token_schema(s),
{
    Schema::structure(vec![
            Member::leaf("id"),
            Member::leaf("ext_wire_expr"),
        ])
}

/// The shape of the declare final message type.
pub open spec fn is_declare_final_schema(s: Schema) -> bool {
    s matches Schema::Struct { members } && members@.len() == 0
}

fn declare_final_schema() -> (s: Schema)
    ensures
        is_declare_final_schema(s),
{
    Schema::structure(Vec::new())
}

/// The shape of the DeclareBody type.
pub open spec fn is_declare_body_schema(s: Schema) -> bool {
    &&& s matches Schema::Enum { name, variants }
    &&& name@ == "DeclareBody"@
    &&& variants@.len() == 9
    &&& variants@[0].name@ == "DeclareKeyExpr"@
    &&& is_declare_key_expr_schema(variants@[0].schema)
    &&& variants@[1].name@ == "UndeclareKeyExpr"@
    &&& is_undeclare_key_expr_schema(variants@[1].schema)
    &&& variants@[2].name@ == "DeclareSubscriber"@
    &&& is_declare_subscriber_schema(variants@[2].schema)
    &&& variants@[3].name@ == "UndeclareSubscriber"@
    &&& is_undeclare_subscriber_schema(variants@[3].schema)
    &&& variants@[4].name@ == "DeclareQueryable"@
    &&& is_declare_queryable_schema(variants@[4].schema)
    &&& variants@[5].name@ == "UndeclareQueryable"@
    &&& is_undeclare_queryable_schema(variants@[5].schema)
    &&& variants@[6].name@ == "DeclareToken"@
    &&& is_declare_token_schema(variants@[6].schema)
    &&& variants@[7].name@ == "UndeclareToken"@
    &&& is_undeclare_token_schema(variants@[7].schema)
    &&& variants@[8].name@ == "DeclareFinal"@
    &&& is_declare_final_schema(variants@[8].schema)
}

fn declare_body_schema() -> (s: Schema)
    ensures
        is_declare_body_schema(s),
{
    Schema::union(
        "DeclareBody",
        vec![
            Variant::of("DeclareKeyExpr", declare_key_expr_schema()),
            Variant::of("UndeclareKeyExpr", undeclare_key_expr_schema()),
            Variant::of("DeclareSubscriber", declare_subscriber_schema()),
            Variant::of("UndeclareSubscriber", undeclare_subscriber_schema()),
            Variant::of("DeclareQueryable", declare_queryable_schema()),
            Variant::of("UndeclareQueryable", undeclare_queryable_schema()),
            Variant::of("DeclareToken", declare_token_schema()),
            Variant::of("UndeclareToken", undeclare_token_schema()),
            Variant::of("DeclareFinal", declare_final_schema()),
        ],
    )
}

/// The shape of the declare message type.
pub open spec fn is_declare_schema(s: Schema) -> bool {
    &&& s matches Schema::Struct { members }
    &&& members@.len() == 5
    &&& leaf_member(members@[0], "interest_id"@)
    &&& leaf_member(members@[1], "ext_qos"@)
    &&& leaf_member(members@[2], "ext_tstamp"@)
    &&& leaf_member(members@[3], "ext_nodeid"@)
    &&& members@[4].name@ == "body"@
    &&& (members@[4].schema matches Schema::Expand { inner } && is_declare_body_schema(*inner))
}

fn declare_schema() -> (s: Schema)
    ensures
        is_declare_schema(s),
{
    Schema::structure(
        vec![
            Member::leaf("interest_id"),
            Member::leaf("ext_qos"),
            Member::leaf("ext_tstamp"),
            Member::leaf("ext_nodeid"),
            Member::of("body", Schema::expand(declare_body_schema())),
        ],
    )
}

/// The shape of the network oam message type.
pub open spec fn is_network_oam_schema(s: Schema) -> bool {
    &&& s matches Schema::Struct { members }
    &&& members@.len() == 4
    &&& leaf_member(members@[0], "id"@)
    &&& leaf_member(members@[1], "ext_qos"@)
    &&& leaf_member(members@[2], "ext_tstamp"@)
    &&& leaf_member(members@[3], "body"@)
}

fn network_oam_schema() -> (s: Schema)
    ensures
        is_network_oam_schema(s),
{
    Schema::structure(vec![
            Member::leaf("id"),
            Member::leaf("ext_qos"),
            Member::leaf("ext_tstamp"),
            Member::leaf("body"),
        ])
}

/// The shape of the NetworkBody type.
pub open spec fn is_network_body_schema(s: Schema) -> bool {
    &&& s matches Schema::Enum { name, variants }
    &&& name@ == "NetworkBody"@
    &&& variants@.len() == 7
    &&& variants@[0].name@ == "Push"@
    &&& is_push_schema(variants@[0].schema)
    &&& variants@[1].name@ == "Request"@
    &&& is_request_schema(variants@[1].schema)
    &&& variants@[2].name@ == "Response"@
    &&& is_response_schema(variants@[2].schema)
    &&& variants@[3].name@ == "ResponseFinal"@
    &&& is_response_final_schema(variants@[3].schema)
    &&& variants@[4].name@ == "Interest"@
    &&& is_interest_schema(variants@[4].schema)
    &&& variants@[5].name@ == "Declare"@
    &&& is_declare_schema(variants@[5].schema)
    &&& variants@[6].name@ == "OAM"@
    &&& is_network_oam_schema(variants@[6].schema)
}

fn network_body_schema() -> (s: Schema)
    ensures
        is_network_body_schema(s),
{
    Schema::union(
        "NetworkBody",
        vec![
            Variant::of("Push", push_schema()),
            Variant::of("Request", request_schema()),
            Variant::of("Response", response_schema()),
            Variant::of("ResponseFinal", response_final_schema()),
            Variant::of("Interest", interest_schema()),
            Variant::of("Declare", declare_schema()),
            Variant::of("OAM", network_oam_schema()),
        ],
    )
}

/// The shape of the network message message type.
pub open spec fn is_network_message_schema(s: Schema) -> bool {
    &&& s matches Schema::Struct { members }
    &&& members@.len() == 1
    &&& members@[0].name@ == "body"@
    &&& (members@[0].schema matches Schema::Expand { inner } && is_network_body_schema(*inner))
}

fn network_message_schema() -> (s: Schema)
    ensures
        is_network_message_schema(s),
{
    Schema::structure(
        vec![
            Member::of("body", Schema::expand(network_body_schema())),
        ],
    )
}

/// The shape of the frame message type.
pub open spec fn is_frame_schema(s: Schema) -> bool {
    &&& s matches Schema::Struct { members }
    &&& members@.len() == 4
    &&& leaf_member(members@[0], "reliability"@)
    &&& leaf_member(members@[1], "sn"@)
    &&& leaf_member(members@[2], "ext_qos"@)
    &&& members@[3].name@ == "payload"@
    &&& (members@[3].schema matches Schema::Repeated { elem_name, element } && elem_name@
        == "NetworkMessage"@ && is_network_message_schema(*element))
}

fn frame_schema() -> (s: Schema)
    ensures
        is_frame_schema(s),
{
    Schema::structure(
        vec![
            Member::leaf("reliability"),
            Member::leaf("sn"),
            Member::leaf("ext_qos"),
            Member::of("payload", Schema::repeated("NetworkMessage", network_message_schema())),
        ],
    )
}

/// The shape of the fragment message type.
pub open spec fn is_fragment_schema(s: Schema) -> bool {
    &&& s matches Schema::Struct { members }
    &&& members@.len() == 5
    &&& leaf_member(members@[0], "reliability"@)
    &&& leaf_member(members@[1], "more"@)
    &&& leaf_member(members@[2], "sn"@)
    &&& leaf_member(members@[3], "payload"@)
    &&& leaf_member(members@[4], "ext_qos"@)
}

fn fragment_schema() -> (s: Schema)
    ensures
        is_fragment_schema(s),
{
    Schema::structure(vec![
            Member::leaf("reliability"),
            Member::leaf("more"),
            Member::leaf("sn"),
            Member::leaf("payload"),
            Member::leaf("ext_qos"),
        ])
}

/// The shape of the transport oam message type.
pub open spec fn is_transport_oam_schema(s: Schema) -> bool {
    &&& s matches Schema::Struct { members }
    &&& members@.len() == 3
    &&& leaf_member(members@[0], "id"@)
    &&& leaf_member(members@[1], "body"@)
    &&& leaf_member(members@[2], "ext_qos"@)
}

fn transport_oam_schema() -> (s: Schema)
    ensures
        is_transport_oam_schema(s),
{
    Schema::structure(vec![
            Member::leaf("id"),
            Member::leaf("body"),
            Member::leaf("ext_qos"),
        ])
}

/// The shape of the join message type.
pub open spec fn is_join_schema(s: Schema) -> bool {
    &&& s matches Schema::Struct { members }
    &&& members@.len() == 9
    &&& leaf_member(members@[0], "version"@)
    &&& leaf_member(members@[1], "whatami"@)
    &&& leaf_member(members@[2], "zid"@)
    &&& leaf_member(members@[3], "resolution"@)
    &&& leaf_member(members@[4], "batch_size"@)
    &&& leaf_member(members@[5], "lease"@)
    &&& leaf_member(members@[6], "next_sn"@)
    &&& leaf_member(members@[7], "ext_qos"@)
    &&& leaf_member(members@[8], "ext_shm"@)
}

fn join_schema() -> (s: Schema)
    ensures
        is_join_schema(s),
{
    Schema::structure(vec![
            Member::leaf("version"),
            Member::leaf("whatami"),
            Member::leaf("zid"),
            Member::leaf("resolution"),
            Member::leaf("batch_size"),
            Member::leaf("lease"),
            Member::leaf("next_sn"),
            Member::leaf("ext_qos"),
            Member::leaf("ext_shm"),
        ])
}

/// The shape of the TransportBody type.
pub open spec fn is_transport_body_schema(s: Schema) -> bool {
    &&& s matches Schema::Enum { name, variants }
    &&& name@ == "TransportBody"@
    &&& variants@.len() == 10
    &&& variants@[0].name@ == "InitSyn"@
    &&& is_init_syn_schema(variants@[0].schema)
    &&& variants@[1].name@ == "InitAck"@
    &&& is_init_ack_schema(variants@[1].schema)
    &&& variants@[2].name@ == "OpenSyn"@
    &&& is_open_syn_schema(variants@[2].schema)
    &&& variants@[3].name@ == "OpenAck"@
    &&& is_open_ack_schema(variants@[3].schema)
    &&& variants@[4].name@ == "Close"@
    &&& is_close_schema(variants@[4].schema)
    &&& variants@[5].name@ == "KeepAlive"@
    &&& is_keep_alive_schema(variants@[5].schema)
    &&& variants@[6].name@ == "Frame"@
    &&& is_frame_schema(variants@[6].schema)
    &&& variants@[7].name@ == "Fragment"@
    &&& is_fragment_schema(variants@[7].schema)
    &&& variants@[8].name@ == "OAM"@
    &&& is_transport_oam_schema(variants@[8].schema)
    &&& variants@[9].name@ == "Join"@
    &&& is_join_schema(variants@[9].schema)
}

fn transport_body_schema() -> (s: Schema)
    ensures
        is_transport_body_schema(s),
{
    Schema::union(
        "TransportBody",
        vec![
            Variant::of("InitSyn", init_syn_schema()),
            Variant::of("InitAck", init_ack_schema()),
            Variant::of("OpenSyn", open_syn_schema()),
            Variant::of("OpenAck", open_ack_schema()),
            Variant::of("Close", close_schema()),
            Variant::of("KeepAlive", keep_alive_schema()),
            Variant::of("Frame", frame_schema()),
            Variant::of("Fragment", fragment_schema()),
            Variant::of("OAM", transport_oam_schema()),
            Variant::of("Join", join_schema()),
        ],
    )
}

/// The shape of one transport-level message: a struct whose one member
/// flattens the transport body enum into the root namespace.
pub open spec fn is_zenoh_message_schema(s: Schema) -> bool {
    &&& s matches Schema::Struct { members }
    &&& members@.len() == 1
    &&& members@[0].name@ == "body"@
    &&& (members@[0].schema matches Schema::Expand { inner } && is_transport_body_schema(
        *inner,
    ))
}

impl ZenohProtocol {
    /// The schema of one transport-level message.
    pub fn message_schema() -> (s: Schema)
        ensures
            is_zenoh_message_schema(s),
            nested_below(s),
    {
        Schema::structure(vec![Member::of("body", Schema::expand(transport_body_schema()))])
    }

    /// Builds the registry and applies the construction-time uniqueness
    /// assertion: a colliding field path is a programming error in the
    /// schema, surfaced here as a `SchemaError` before any dissection.
    pub fn initialize(prefix: &str) -> (r: Result<Registry, SchemaError>)
        ensures
            r matches Ok(reg) ==> {
                &&& reg.wf()
                &&& reg.prefix@ == prefix@
                &&& reg.root_display@ == "ZenohProtocol"@
                &&& is_zenoh_message_schema(reg.schema)
                &&& nested_below(reg.schema)
                &&& no_dup(paths_of(reg.hf_map.entries()))
            },
            r is Err ==> exists|s: Schema|
                #[trigger] is_zenoh_message_schema(s) && !no_dup(
                    paths_of(
                        seq![(prefix@, "ZenohProtocol"@, FieldKind::Branch)] + reg_entries(
                            s,
                            prefix@,
                            prefix@,
                        ),
                    ),
                ),
    {
        let reg = Self::registry(prefix);
        match check_unique(&reg.hf_map) {
            Ok(()) => Ok(reg),
            Err(e) => {
                proof {
                    assert(is_zenoh_message_schema(reg.schema) && !no_dup(
                        paths_of(
                            seq![(prefix@, "ZenohProtocol"@, FieldKind::Branch)] + reg_entries(
                                reg.schema,
                                prefix@,
                                prefix@,
                            ),
                        ),
                    ));
                }
                Err(e)
            },
        }
    }

    /// The full registry for this protocol rooted at `prefix`: the zenoh
    /// message schema registered under the root display `ZenohProtocol`.
    pub fn registry(prefix: &str) -> (r: Registry)
        ensures
            r.wf(),
            r.prefix@ == prefix@,
            r.root_display@ == "ZenohProtocol"@,
            is_zenoh_message_schema(r.schema),
            nested_below(r.schema),
    {
        Registry::build(Self::message_schema(), prefix, "ZenohProtocol")
    }
}

impl Registration for ZenohProtocol {
    fn generate_hf_map(prefix: &str) -> HeaderFieldMap {
        Self::registry(prefix).hf_map
    }

    fn generate_subtree_names(prefix: &str) -> Vec<String> {
        Self::registry(prefix).subtrees
    }
}

#[verifier::rlimit(50)]
/// Runs of leaf members with equal names register identically.
proof fn lemma_leaf_members_congruent(ms1: Seq<Member>, ms2: Seq<Member>, q: Seq<char>)
    requires
        ms1.len() == ms2.len(),
        forall|i: int| 0 <= i < ms1.len() ==> (#[trigger] ms1[i]).name@ == ms2[i].name@,
        forall|i: int| 0 <= i < ms1.len() ==> (#[trigger] ms1[i]).schema is Leaf,
        forall|i: int| 0 <= i < ms2.len() ==> (#[trigger] ms2[i]).schema is Leaf,
    ensures
        reg_entries_members(ms1, q) == reg_entries_members(ms2, q),
        reg_subtrees_members(ms1, q) == reg_subtrees_members(ms2, q),
    decreases ms1.len(),
{
    if ms1.len() > 0 {
        lemma_leaf_members_congruent(ms1.drop_last(), ms2.drop_last(), q);
        assert(ms1.last().name@ == ms2.last().name@);
        assert(reg_entries(ms1.last().schema, child_path(q, ms1.last().name@), ms1.last().name@)
            =~= reg_entries(ms2.last().schema, child_path(q, ms2.last().name@), ms2.last().name@));
        assert(reg_entries_members(ms1, q) =~= reg_entries_members(ms2, q));
        assert(reg_subtrees_members(ms1, q) =~= reg_subtrees_members(ms2, q));
    }
}

/// Runs of variants with equal names and equal payload catalogs register
/// identically.
proof fn lemma_variants_congruent(vs1: Seq<Variant>, vs2: Seq<Variant>, q: Seq<char>)
    requires
        vs1.len() == vs2.len(),
        forall|i: int| 0 <= i < vs1.len() ==> (#[trigger] vs1[i]).name@ == vs2[i].name@,
        forall|i: int|
            0 <= i < vs1.len() ==> reg_entries(
                (#[trigger] vs1[i]).schema,
                child_path(q, crate::casing::snake_of(vs1[i].name@)),
                crate::casing::snake_of(vs1[i].name@),
            ) == reg_entries(
                vs2[i].schema,
                child_path(q, crate::casing::snake_of(vs2[i].name@)),
                crate::casing::snake_of(vs2[i].name@),
            ),
        forall|i: int|
            0 <= i < vs1.len() ==> reg_subtrees(
                (#[trigger] vs1[i]).schema,
                child_path(q, crate::casing::snake_of(vs1[i].name@)),
            ) == reg_subtrees(
                vs2[i].schema,
                child_path(q, crate::casing::snake_of(vs2[i].name@)),
            ),
    ensures
        crate::schema::reg_entries_variants(vs1, q) == crate::schema::reg_entries_variants(
            vs2,
            q,
        ),
        crate::schema::reg_subtrees_variants(vs1, q) == crate::schema::reg_subtrees_variants(
            vs2,
            q,
        ),
    decreases vs1.len(),
{
    if vs1.len() > 0 {
        lemma_variants_congruent(vs1.drop_last(), vs2.drop_last(), q);
        assert(vs1.last().name@ == vs2.last().name@);
        assert(crate::schema::reg_entries_variants(vs1, q) =~= crate::schema::reg_entries_variants(
            vs2,
            q,
        ));
        assert(crate::schema::reg_subtrees_variants(vs1, q)
            =~= crate::schema::reg_subtrees_variants(vs2, q));
    }
}

proof fn lemma_init_syn_deterministic(s1: Schema, s2: Schema, q: Seq<char>, m: Seq<char>)
    requires
        is_init_syn_schema(s1),
        is_init_syn_schema(s2),
    ensures
        reg_entries(s1, q, m) == reg_entries(s2, q, m),
        reg_subtrees(s1, q) == reg_subtrees(s2, q),
{
    lemma_leaf_members_congruent(s1->members@, s2->members@, q);
}

proof fn lemma_init_ack_deterministic(s1: Schema, s2: Schema, q: Seq<char>, m: Seq<char>)
    requires
        is_init_ack_schema(s1),
        is_init_ack_schema(s2),
    ensures
        reg_entries(s1, q, m) == reg_entries(s2, q, m),
        reg_subtrees(s1, q) == reg_subtrees(s2, q),
{
    lemma_leaf_members_congruent(s1->members@, s2->members@, q);
}

proof fn lemma_open_syn_deterministic(s1: Schema, s2: Schema, q: Seq<char>, m: Seq<char>)
    requires
        is_open_syn_schema(s1),
        is_open_syn_schema(s2),
    ensures
        reg_entries(s1, q, m) == reg_entries(s2, q, m),
        reg_subtrees(s1, q) == reg_subtrees(s2, q),
{
    lemma_leaf_members_congruent(s1->members@, s2->members@, q);
}

proof fn lemma_open_ack_deterministic(s1: Schema, s2: Schema, q: Seq<char>, m: Seq<char>)
    requires
        is_open_ack_schema(s1),
        is_open_ack_schema(s2),
    ensures
        reg_entries(s1, q, m) == reg_entries(s2, q, m),
        reg_subtrees(s1, q) == reg_subtrees(s2, q),
{
    lemma_leaf_members_congruent(s1->members@, s2->members@, q);
}

proof fn lemma_close_deterministic(s1: Schema, s2: Schema, q: Seq<char>, m: Seq<char>)
    requires
        is_close_schema(s1),
        is_close_schema(s2),
    ensures
        reg_entries(s1, q, m) == reg_entries(s2, q, m),
        reg_subtrees(s1, q) == reg_subtrees(s2, q),
{
    lemma_leaf_members_congruent(s1->members@, s2->members@, q);
}

proof fn lemma_keep_alive_deterministic(s1: Schema, s2: Schema, q: Seq<char>, m: Seq<char>)
    requires
        is_keep_alive_schema(s1),
        is_keep_alive_schema(s2),
    ensures
        reg_entries(s1, q, m) == reg_entries(s2, q, m),
        reg_subtrees(s1, q) == reg_subtrees(s2, q),
{
    lemma_leaf_members_congruent(s1->members@, s2->members@, q);
}

proof fn lemma_put_deterministic(s1: Schema, s2: Schema, q: Seq<char>, m: Seq<char>)
    requires
        is_put_schema(s1),
        is_put_schema(s2),
    ensures
        reg_entries(s1, q, m) == reg_entries(s2, q, m),
        reg_subtrees(s1, q) == reg_subtrees(s2, q),
{
    lemma_leaf_members_congruent(s1->members@, s2->members@, q);
}

proof fn lemma_del_deterministic(s1: Schema, s2: Schema, q: Seq<char>, m: Seq<char>)
    requires
        is_del_schema(s1),
        is_del_schema(s2),
    ensures
        reg_entries(s1, q, m) == reg_entries(s2, q, m),
        reg_subtrees(s1, q) == reg_subtrees(s2, q),
{
    lemma_leaf_members_congruent(s1->members@, s2->members@, q);
}

proof fn lemma_query_deterministic(s1: Schema, s2: Schema, q: Seq<char>, m: Seq<char>)
    requires
        is_query_schema(s1),
        is_query_schema(s2),
    ensures
        reg_entries(s1, q, m) == reg_entries(s2, q, m),
        reg_subtrees(s1, q) == reg_subtrees(s2, q),
{
    lemma_leaf_members_congruent(s1->members@, s2->members@, q);
}

proof fn lemma_reply_deterministic(s1: Schema, s2: Schema, q: Seq<char>, m: Seq<char>)
    requires
        is_reply_schema(s1),
        is_reply_schema(s2),
    ensures
        reg_entries(s1, q, m) == reg_entries(s2, q, m),
        reg_subtrees(s1, q) == reg_subtrees(s2, q),
{
    lemma_leaf_members_congruent(s1->members@, s2->members@, q);
}

proof fn lemma_err_deterministic(s1: Schema, s2: Schema, q: Seq<char>, m: Seq<char>)
    requires
        is_err_schema(s1),
        is_err_schema(s2),
    ensures
        reg_entries(s1, q, m) == reg_entries(s2, q, m),
        reg_subtrees(s1, q) == reg_subtrees(s2, q),
{
    lemma_leaf_members_congruent(s1->members@, s2->members@, q);
}

proof fn lemma_response_final_deterministic(s1: Schema, s2: Schema, q: Seq<char>, m: Seq<char>)
    requires
        is_response_final_schema(s1),
        is_response_final_schema(s2),
    ensures
        reg_entries(s1, q, m) == reg_entries(s2, q, m),
        reg_subtrees(s1, q) == reg_subtrees(s2, q),
{
    lemma_leaf_members_congruent(s1->members@, s2->members@, q);
}

proof fn lemma_interest_deterministic(s1: Schema, s2: Schema, q: Seq<char>, m: Seq<char>)
    requires
        is_interest_schema(s1),
        is_interest_schema(s2),
    ensures
        reg_entries(s1, q, m) == reg_entries(s2, q, m),
        reg_subtrees(s1, q) == reg_subtrees(s2, q),
{
    lemma_leaf_members_congruent(s1->members@, s2->members@, q);
}

proof fn lemma_network_oam_deterministic(s1: Schema, s2: Schema, q: Seq<char>, m: Seq<char>)
    requires
        is_network_oam_schema(s1),
        is_network_oam_schema(s2),
    ensures
        reg_entries(s1, q, m) == reg_entries(s2, q, m),
        reg_subtrees(s1, q) == reg_subtrees(s2, q),
{
    lemma_leaf_members_congruent(s1->members@, s2->members@, q);
}

proof fn lemma_fragment_deterministic(s1: Schema, s2: Schema, q: Seq<char>, m: Seq<char>)
    requires
        is_fragment_schema(s1),
        is_fragment_schema(s2),
    ensures
        reg_entries(s1, q, m) == reg_entries(s2, q, m),
        reg_subtrees(s1, q) == reg_subtrees(s2, q),
{
    lemma_leaf_members_congruent(s1->members@, s2->members@, q);
}

proof fn lemma_transport_oam_deterministic(s1: Schema, s2: Schema, q: Seq<char>, m: Seq<char>)
    requires
        is_transport_oam_schema(s1),
        is_transport_oam_schema(s2),
    ensures
        reg_entries(s1, q, m) == reg_entries(s2, q, m),
        reg_subtrees(s1, q) == reg_subtrees(s2, q),
{
    lemma_leaf_members_congruent(s1->members@, s2->members@, q);
}

proof fn lemma_join_deterministic(s1: Schema, s2: Schema, q: Seq<char>, m: Seq<char>)
    requires
        is_join_schema(s1),
        is_join_schema(s2),
    ensures
        reg_entries(s1, q, m) == reg_entries(s2, q, m),
        reg_subtrees(s1, q) == reg_subtrees(s2, q),
{
    lemma_leaf_members_congruent(s1->members@, s2->members@, q);
}

proof fn lemma_declare_key_expr_deterministic(s1: Schema, s2: Schema, q: Seq<char>, m: Seq<char>)
    requires
        is_declare_key_expr_schema(s1),
        is_declare_key_expr_schema(s2),
    ensures
        reg_entries(s1, q, m) == reg_entries(s2, q, m),
        reg_subtrees(s1, q) == reg_subtrees(s2, q),
{
    lemma_leaf_members_congruent(s1->members@, s2->members@, q);
}

proof fn lemma_undeclare_key_expr_deterministic(s1: Schema, s2: Schema, q: Seq<char>, m: Seq<char>)
    requires
        is_undeclare_key_expr_schema(s1),
        is_undeclare_key_expr_schema(s2),
    ensures
        reg_entries(s1, q, m) == reg_entries(s2, q, m),
        reg_subtrees(s1, q) == reg_subtrees(s2, q),
{
    lemma_leaf_members_congruent(s1->members@, s2->members@, q);
}

proof fn lemma_declare_subscriber_deterministic(s1: Schema, s2: Schema, q: Seq<char>, m: Seq<char>)
    requires
        is_declare_subscriber_schema(s1),
        is_declare_subscriber_schema(s2),
    ensures
        reg_entries(s1, q, m) == reg_entries(s2, q, m),
        reg_subtrees(s1, q) == reg_subtrees(s2, q),
{
    lemma_leaf_members_congruent(s1->members@, s2->members@, q);
}

proof fn lemma_undeclare_subscriber_deterministic(s1: Schema, s2: Schema, q: Seq<char>, m: Seq<char>)
    requires
        is_undeclare_subscriber_schema(s1),
        is_undeclare_subscriber_schema(s2),
    ensures
        reg_entries(s1, q, m) == reg_entries(s2, q, m),
        reg_subtrees(s1, q) == reg_subtrees(s2, q),
{
    lemma_leaf_members_congruent(s1->members@, s2->members@, q);
}

proof fn lemma_declare_queryable_deterministic(s1: Schema, s2: Schema, q: Seq<char>, m: Seq<char>)
    requires
        is_declare_queryable_schema(s1),
        is_declare_queryable_schema(s2),
    ensures
        reg_entries(s1, q, m) == reg_entries(s2, q, m),
        reg_subtrees(s1, q) == reg_subtrees(s2, q),
{
    lemma_leaf_members_congruent(s1->members@, s2->members@, q);
}

proof fn lemma_undeclare_queryable_deterministic(s1: Schema, s2: Schema, q: Seq<char>, m: Seq<char>)
    requires
        is_undeclare_queryable_schema(s1),
        is_undeclare_queryable_schema(s2),
    ensures
        reg_entries(s1, q, m) == reg_entries(s2, q, m),
        reg_subtrees(s1, q) == reg_subtrees(s2, q),
{
    lemma_leaf_members_congruent(s1->members@, s2->members@, q);
}

proof fn lemma_declare_token_deterministic(s1: Schema, s2: Schema, q: Seq<char>, m: Seq<char>)
    requires
        is_declare_token_schema(s1),
        is_declare_token_schema(s2),
    ensures
        reg_entries(s1, q, m) == reg_entries(s2, q, m),
        reg_subtrees(s1, q) == reg_subtrees(s2, q),
{
    lemma_leaf_members_congruent(s1->members@, s2->members@, q);
}

proof fn lemma_undeclare_token_deterministic(s1: Schema, s2: Schema, q: Seq<char>, m: Seq<char>)
    requires
        is_undeclare_token_schema(s1),
        is_undeclare_token_schema(s2),
    ensures
        reg_entries(s1, q, m) == reg_entries(s2, q, m),
        reg_subtrees(s1, q) == reg_subtrees(s2, q),
{
    lemma_leaf_members_congruent(s1->members@, s2->members@, q);
}

proof fn lemma_declare_final_deterministic(s1: Schema, s2: Schema, q: Seq<char>, m: Seq<char>)
    requires
        is_declare_final_schema(s1),
        is_declare_final_schema(s2),
    ensures
        reg_entries(s1, q, m) == reg_entries(s2, q, m),
        reg_subtrees(s1, q) == reg_subtrees(s2, q),
{
    lemma_leaf_members_congruent(s1->members@, s2->members@, q);
}

proof fn lemma_push_deterministic(s1: Schema, s2: Schema, q: Seq<char>, m: Seq<char>)
    requires
        is_push_schema(s1),
        is_push_schema(s2),
    ensures
        reg_entries(s1, q, m) == reg_entries(s2, q, m),
        reg_subtrees(s1, q) == reg_subtrees(s2, q),
{
    let n = s1->members@.len() - 1;
    lemma_leaf_members_congruent(s1->members@.drop_last(), s2->members@.drop_last(), q);
    let l1 = s1->members@[n];
    let l2 = s2->members@[n];
    lemma_push_body_deterministic(
        *l1.schema->Expand_inner,
        *l2.schema->Expand_inner,
        child_path(q, l1.name@),
        l1.name@,
    );
    assert(reg_entries(l1.schema, child_path(q, l1.name@), l1.name@) == reg_entries(
        l2.schema,
        child_path(q, l2.name@),
        l2.name@,
    ));
    assert(reg_subtrees(l1.schema, child_path(q, l1.name@)) == reg_subtrees(
        l2.schema,
        child_path(q, l2.name@),
    ));
    assert(reg_entries_members(s1->members@, q) =~= reg_entries_members(s2->members@, q));
    assert(reg_subtrees_members(s1->members@, q) =~= reg_subtrees_members(s2->members@, q));
}

proof fn lemma_request_deterministic(s1: Schema, s2: Schema, q: Seq<char>, m: Seq<char>)
    requires
        is_request_schema(s1),
        is_request_schema(s2),
    ensures
        reg_entries(s1, q, m) == reg_entries(s2, q, m),
        reg_subtrees(s1, q) == reg_subtrees(s2, q),
{
    let n = s1->members@.len() - 1;
    lemma_leaf_members_congruent(s1->members@.drop_last(), s2->members@.drop_last(), q);
    let l1 = s1->members@[n];
    let l2 = s2->members@[n];
    lemma_request_body_deterministic(
        *l1.schema->Expand_inner,
        *l2.schema->Expand_inner,
        child_path(q, l1.name@),
        l1.name@,
    );
    assert(reg_entries(l1.schema, child_path(q, l1.name@), l1.name@) == reg_entries(
        l2.schema,
        child_path(q, l2.name@),
        l2.name@,
    ));
    assert(reg_subtrees(l1.schema, child_path(q, l1.name@)) == reg_subtrees(
        l2.schema,
        child_path(q, l2.name@),
    ));
    assert(reg_entries_members(s1->members@, q) =~= reg_entries_members(s2->members@, q));
    assert(reg_subtrees_members(s1->members@, q) =~= reg_subtrees_members(s2->members@, q));
}

proof fn lemma_response_deterministic(s1: Schema, s2: Schema, q: Seq<char>, m: Seq<char>)
    requires
        is_response_schema(s1),
        is_response_schema(s2),
    ensures
        reg_entries(s1, q, m) == reg_entries(s2, q, m),
        reg_subtrees(s1, q) == reg_subtrees(s2, q),
{
    let n = s1->members@.len() - 1;
    lemma_leaf_members_congruent(s1->members@.drop_last(), s2->members@.drop_last(), q);
    let l1 = s1->members@[n];
    let l2 = s2->members@[n];
    lemma_response_body_deterministic(
        *l1.schema->Expand_inner,
        *l2.schema->Expand_inner,
        child_path(q, l1.name@),
        l1.name@,
    );
    assert(reg_entries(l1.schema, child_path(q, l1.name@), l1.name@) == reg_entries(
        l2.schema,
        child_path(q, l2.name@),
        l2.name@,
    ));
    assert(reg_subtrees(l1.schema, child_path(q, l1.name@)) == reg_subtrees(
        l2.schema,
        child_path(q, l2.name@),
    ));
    assert(reg_entries_members(s1->members@, q) =~= reg_entries_members(s2->members@, q));
    assert(reg_subtrees_members(s1->members@, q) =~= reg_subtrees_members(s2->members@, q));
}

proof fn lemma_declare_deterministic(s1: Schema, s2: Schema, q: Seq<char>, m: Seq<char>)
    requires
        is_declare_schema(s1),
        is_declare_schema(s2),
    ensures
        reg_entries(s1, q, m) == reg_entries(s2, q, m),
        reg_subtrees(s1, q) == reg_subtrees(s2, q),
{
    let n = s1->members@.len() - 1;
    lemma_leaf_members_congruent(s1->members@.drop_last(), s2->members@.drop_last(), q);
    let l1 = s1->members@[n];
    let l2 = s2->members@[n];
    lemma_declare_body_deterministic(
        *l1.schema->Expand_inner,
        *l2.schema->Expand_inner,
        child_path(q, l1.name@),
        l1.name@,
    );
    assert(reg_entries(l1.schema, child_path(q, l1.name@), l1.name@) == reg_entries(
        l2.schema,
        child_path(q, l2.name@),
        l2.name@,
    ));
    assert(reg_subtrees(l1.schema, child_path(q, l1.name@)) == reg_subtrees(
        l2.schema,
        child_path(q, l2.name@),
    ));
    assert(reg_entries_members(s1->members@, q) =~= reg_entries_members(s2->members@, q));
    assert(reg_subtrees_members(s1->members@, q) =~= reg_subtrees_members(s2->members@, q));
}

proof fn lemma_network_message_deterministic(s1: Schema, s2: Schema, q: Seq<char>, m: Seq<char>)
    requires
        is_network_message_schema(s1),
        is_network_message_schema(s2),
    ensures
        reg_entries(s1, q, m) == reg_entries(s2, q, m),
        reg_subtrees(s1, q) == reg_subtrees(s2, q),
{
    let n = s1->members@.len() - 1;
    lemma_leaf_members_congruent(s1->members@.drop_last(), s2->members@.drop_last(), q);
    let l1 = s1->members@[n];
    let l2 = s2->members@[n];
    lemma_network_body_deterministic(
        *l1.schema->Expand_inner,
        *l2.schema->Expand_inner,
        child_path(q, l1.name@),
        l1.name@,
    );
    assert(reg_entries(l1.schema, child_path(q, l1.name@), l1.name@) == reg_entries(
        l2.schema,
        child_path(q, l2.name@),
        l2.name@,
    ));
    assert(reg_subtrees(l1.schema, child_path(q, l1.name@)) == reg_subtrees(
        l2.schema,
        child_path(q, l2.name@),
    ));
    assert(reg_entries_members(s1->members@, q) =~= reg_entries_members(s2->members@, q));
    assert(reg_subtrees_members(s1->members@, q) =~= reg_subtrees_members(s2->members@, q));
}

proof fn lemma_frame_deterministic(s1: Schema, s2: Schema, q: Seq<char>, m: Seq<char>)
    requires
        is_frame_schema(s1),
        is_frame_schema(s2),
    ensures
        reg_entries(s1, q, m) == reg_entries(s2, q, m),
        reg_subtrees(s1, q) == reg_subtrees(s2, q),
{
    let n = s1->members@.len() - 1;
    lemma_leaf_members_congruent(s1->members@.drop_last(), s2->members@.drop_last(), q);
    let l1 = s1->members@[n];
    let l2 = s2->members@[n];
    lemma_network_message_deterministic(
        *l1.schema->element,
        *l2.schema->element,
        child_path(q, l1.name@),
        l1.name@,
    );
    assert(reg_entries(l1.schema, child_path(q, l1.name@), l1.name@) =~= reg_entries(
        l2.schema,
        child_path(q, l2.name@),
        l2.name@,
    ));
    assert(reg_subtrees(l1.schema, child_path(q, l1.name@)) =~= reg_subtrees(
        l2.schema,
        child_path(q, l2.name@),
    ));
    assert(reg_entries_members(s1->members@, q) =~= reg_entries_members(s2->members@, q));
    assert(reg_subtrees_members(s1->members@, q) =~= reg_subtrees_members(s2->members@, q));
}

proof fn lemma_push_body_deterministic(s1: Schema, s2: Schema, q: Seq<char>, m: Seq<char>)
    requires
        is_push_body_schema(s1),
        is_push_body_schema(s2),
    ensures
        reg_entries(s1, q, m) == reg_entries(s2, q, m),
        reg_subtrees(s1, q) == reg_subtrees(s2, q),
{
    lemma_put_deterministic(
        s1->variants@[0].schema,
        s2->variants@[0].schema,
        child_path(q, crate::casing::snake_of(s1->variants@[0].name@)),
        crate::casing::snake_of(s1->variants@[0].name@),
    );
    lemma_del_deterministic(
        s1->variants@[1].schema,
        s2->variants@[1].schema,
        child_path(q, crate::casing::snake_of(s1->variants@[1].name@)),
        crate::casing::snake_of(s1->variants@[1].name@),
    );
    lemma_variants_congruent(s1->variants@, s2->variants@, q);
    assert(reg_entries(s1, q, m) =~= reg_entries(s2, q, m));
    assert(reg_subtrees(s1, q) =~= reg_subtrees(s2, q));
}

proof fn lemma_request_body_deterministic(s1: Schema, s2: Schema, q: Seq<char>, m: Seq<char>)
    requires
        is_request_body_schema(s1),
        is_request_body_schema(s2),
    ensures
        reg_entries(s1, q, m) == reg_entries(s2, q, m),
        reg_subtrees(s1, q) == reg_subtrees(s2, q),
{
    lemma_query_deterministic(
        s1->variants@[0].schema,
        s2->variants@[0].schema,
        child_path(q, crate::casing::snake_of(s1->variants@[0].name@)),
        crate::casing::snake_of(s1->variants@[0].name@),
    );
    lemma_variants_congruent(s1->variants@, s2->variants@, q);
    assert(reg_entries(s1, q, m) =~= reg_entries(s2, q, m));
    assert(reg_subtrees(s1, q) =~= reg_subtrees(s2, q));
}

proof fn lemma_response_body_deterministic(s1: Schema, s2: Schema, q: Seq<char>, m: Seq<char>)
    requires
        is_response_body_schema(s1),
        is_response_body_schema(s2),
    ensures
        reg_entries(s1, q, m) == reg_entries(s2, q, m),
        reg_subtrees(s1, q) == reg_subtrees(s2, q),
{
    lemma_reply_deterministic(
        s1->variants@[0].schema,
        s2->variants@[0].schema,
        child_path(q, crate::casing::snake_of(s1->variants@[0].name@)),
        crate::casing::snake_of(s1->variants@[0].name@),
    );
    lemma_err_deterministic(
        s1->variants@[1].schema,
        s2->variants@[1].schema,
        child_path(q, crate::casing::snake_of(s1->variants@[1].name@)),
        crate::casing::snake_of(s1->variants@[1].name@),
    );
    lemma_variants_congruent(s1->variants@, s2->variants@, q);
    assert(reg_entries(s1, q, m) =~= reg_entries(s2, q, m));
    assert(reg_subtrees(s1, q) =~= reg_subtrees(s2, q));
}

proof fn lemma_declare_body_deterministic(s1: Schema, s2: Schema, q: Seq<char>, m: Seq<char>)
    requires
        is_declare_body_schema(s1),
        is_declare_body_schema(s2),
    ensures
        reg_entries(s1, q, m) == reg_entries(s2, q, m),
        reg_subtrees(s1, q) == reg_subtrees(s2, q),
{
    lemma_declare_key_expr_deterministic(
        s1->variants@[0].schema,
        s2->variants@[0].schema,
        child_path(q, crate::casing::snake_of(s1->variants@[0].name@)),
        crate::casing::snake_of(s1->variants@[0].name@),
    );
    lemma_undeclare_key_expr_deterministic(
        s1->variants@[1].schema,
        s2->variants@[1].schema,
        child_path(q, crate::casing::snake_of(s1->variants@[1].name@)),
        crate::casing::snake_of(s1->variants@[1].name@),
    );
    lemma_declare_subscriber_deterministic(
        s1->variants@[2].schema,
        s2->variants@[2].schema,
        child_path(q, crate::casing::snake_of(s1->variants@[2].name@)),
        crate::casing::snake_of(s1->variants@[2].name@),
    );
    lemma_undeclare_subscriber_deterministic(
        s1->variants@[3].schema,
        s2->variants@[3].schema,
        child_path(q, crate::casing::snake_of(s1->variants@[3].name@)),
        crate::casing::snake_of(s1->variants@[3].name@),
    );
    lemma_declare_queryable_deterministic(
        s1->variants@[4].schema,
        s2->variants@[4].schema,
        child_path(q, crate::casing::snake_of(s1->variants@[4].name@)),
        crate::casing::snake_of(s1->variants@[4].name@),
    );
    lemma_undeclare_queryable_deterministic(
        s1->variants@[5].schema,
        s2->variants@[5].schema,
        child_path(q, crate::casing::snake_of(s1->variants@[5].name@)),
        crate::casing::snake_of(s1->variants@[5].name@),
    );
    lemma_declare_token_deterministic(
        s1->variants@[6].schema,
        s2->variants@[6].schema,
        child_path(q, crate::casing::snake_of(s1->variants@[6].name@)),
        crate::casing::snake_of(s1->variants@[6].name@),
    );
    lemma_undeclare_token_deterministic(
        s1->variants@[7].schema,
        s2->variants@[7].schema,
        child_path(q, crate::casing::snake_of(s1->variants@[7].name@)),
        crate::casing::snake_of(s1->variants@[7].name@),
    );
    lemma_declare_final_deterministic(
        s1->variants@[8].schema,
        s2->variants@[8].schema,
        child_path(q, crate::casing::snake_of(s1->variants@[8].name@)),
        crate::casing::snake_of(s1->variants@[8].name@),
    );
    lemma_variants_congruent(s1->variants@, s2->variants@, q);
    assert(reg_entries(s1, q, m) =~= reg_entries(s2, q, m));
    assert(reg_subtrees(s1, q) =~= reg_subtrees(s2, q));
}

proof fn lemma_network_body_deterministic(s1: Schema, s2: Schema, q: Seq<char>, m: Seq<char>)
    requires
        is_network_body_schema(s1),
        is_network_body_schema(s2),
    ensures
        reg_entries(s1, q, m) == reg_entries(s2, q, m),
        reg_subtrees(s1, q) == reg_subtrees(s2, q),
{
    lemma_push_deterministic(
        s1->variants@[0].schema,
        s2->variants@[0].schema,
        child_path(q, crate::casing::snake_of(s1->variants@[0].name@)),
        crate::casing::snake_of(s1->variants@[0].name@),
    );
    lemma_request_deterministic(
        s1->variants@[1].schema,
        s2->variants@[1].schema,
        child_path(q, crate::casing::snake_of(s1->variants@[1].name@)),
        crate::casing::snake_of(s1->variants@[1].name@),
    );
    lemma_response_deterministic(
        s1->variants@[2].schema,
        s2->variants@[2].schema,
        child_path(q, crate::casing::snake_of(s1->variants@[2].name@)),
        crate::casing::snake_of(s1->variants@[2].name@),
    );
    lemma_response_final_deterministic(
        s1->variants@[3].schema,
        s2->variants@[3].schema,
        child_path(q, crate::casing::snake_of(s1->variants@[3].name@)),
        crate::casing::snake_of(s1->variants@[3].name@),
    );
    lemma_interest_deterministic(
        s1->variants@[4].schema,
        s2->variants@[4].schema,
        child_path(q, crate::casing::snake_of(s1->variants@[4].name@)),
        crate::casing::snake_of(s1->variants@[4].name@),
    );
    lemma_declare_deterministic(
        s1->variants@[5].schema,
        s2->variants@[5].schema,
        child_path(q, crate::casing::snake_of(s1->variants@[5].name@)),
        crate::casing::snake_of(s1->variants@[5].name@),
    );
    lemma_network_oam_deterministic(
        s1->variants@[6].schema,
        s2->variants@[6].schema,
        child_path(q, crate::casing::snake_of(s1->variants@[6].name@)),
        crate::casing::snake_of(s1->variants@[6].name@),
    );
    lemma_variants_congruent(s1->variants@, s2->variants@, q);
    assert(reg_entries(s1, q, m) =~= reg_entries(s2, q, m));
    assert(reg_subtrees(s1, q) =~= reg_subtrees(s2, q));
}

proof fn lemma_transport_body_deterministic(s1: Schema, s2: Schema, q: Seq<char>, m: Seq<char>)
    requires
        is_transport_body_schema(s1),
        is_transport_body_schema(s2),
    ensures
        reg_entries(s1, q, m) == reg_entries(s2, q, m),
        reg_subtrees(s1, q) == reg_subtrees(s2, q),
{
    lemma_init_syn_deterministic(
        s1->variants@[0].schema,
        s2->variants@[0].schema,
        child_path(q, crate::casing::snake_of(s1->variants@[0].name@)),
        crate::casing::snake_of(s1->variants@[0].name@),
    );
    lemma_init_ack_deterministic(
        s1->variants@[1].schema,
        s2->variants@[1].schema,
        child_path(q, crate::casing::snake_of(s1->variants@[1].name@)),
        crate::casing::snake_of(s1->variants@[1].name@),
    );
    lemma_open_syn_deterministic(
        s1->variants@[2].schema,
        s2->variants@[2].schema,
        child_path(q, crate::casing::snake_of(s1->variants@[2].name@)),
        crate::casing::snake_of(s1->variants@[2].name@),
    );
    lemma_open_ack_deterministic(
        s1->variants@[3].schema,
        s2->variants@[3].schema,
        child_path(q, crate::casing::snake_of(s1->variants@[3].name@)),
        crate::casing::snake_of(s1->variants@[3].name@),
    );
    lemma_close_deterministic(
        s1->variants@[4].schema,
        s2->variants@[4].schema,
        child_path(q, crate::casing::snake_of(s1->variants@[4].name@)),
        crate::casing::snake_of(s1->variants@[4].name@),
    );
    lemma_keep_alive_deterministic(
        s1->variants@[5].schema,
        s2->variants@[5].schema,
        child_path(q, crate::casing::snake_of(s1->variants@[5].name@)),
        crate::casing::snake_of(s1->variants@[5].name@),
    );
    lemma_frame_deterministic(
        s1->variants@[6].schema,
        s2->variants@[6].schema,
        child_path(q, crate::casing::snake_of(s1->variants@[6].name@)),
        crate::casing::snake_of(s1->variants@[6].name@),
    );
    lemma_fragment_deterministic(
        s1->variants@[7].schema,
        s2->variants@[7].schema,
        child_path(q, crate::casing::snake_of(s1->variants@[7].name@)),
        crate::casing::snake_of(s1->variants@[7].name@),
    );
    lemma_transport_oam_deterministic(
        s1->variants@[8].schema,
        s2->variants@[8].schema,
        child_path(q, crate::casing::snake_of(s1->variants@[8].name@)),
        crate::casing::snake_of(s1->variants@[8].name@),
    );
    lemma_join_deterministic(
        s1->variants@[9].schema,
        s2->variants@[9].schema,
        child_path(q, crate::casing::snake_of(s1->variants@[9].name@)),
        crate::casing::snake_of(s1->variants@[9].name@),
    );
    lemma_variants_congruent(s1->variants@, s2->variants@, q);
    assert(reg_entries(s1, q, m) =~= reg_entries(s2, q, m));
    assert(reg_subtrees(s1, q) =~= reg_subtrees(s2, q));
}

/// Catalog construction is deterministic: any two schema values of the
/// pinned zenoh message shape register identical descriptor entries and
/// identical subtree catalogs.
pub proof fn lemma_zenoh_catalog_deterministic(s1: Schema, s2: Schema, q: Seq<char>, m: Seq<char>)
    requires
        is_zenoh_message_schema(s1),
        is_zenoh_message_schema(s2),
    ensures
        reg_entries(s1, q, m) == reg_entries(s2, q, m),
        reg_subtrees(s1, q) == reg_subtrees(s2, q),
{
    let l1 = s1->members@[0];
    let l2 = s2->members@[0];
    lemma_transport_body_deterministic(
        *l1.schema->Expand_inner,
        *l2.schema->Expand_inner,
        child_path(q, l1.name@),
        l1.name@,
    );
    assert(s1->members@.drop_last() =~= Seq::<Member>::empty());
    assert(s2->members@.drop_last() =~= Seq::<Member>::empty());
    assert(reg_entries(l1.schema, child_path(q, l1.name@), l1.name@) == reg_entries(
        l2.schema,
        child_path(q, l2.name@),
        l2.name@,
    ));
    assert(reg_subtrees(l1.schema, child_path(q, l1.name@)) == reg_subtrees(
        l2.schema,
        child_path(q, l2.name@),
    ));
    assert(reg_entries_members(s1->members@, q) =~= reg_entries_members(s2->members@, q));
    assert(reg_subtrees_members(s1->members@, q) =~= reg_subtrees_members(s2->members@, q));
}

/// Registration is deterministic: two registries built for the zenoh
/// schema at one prefix and root display hold identical descriptor
/// entries and identical subtree catalogs.
pub proof fn lemma_zenoh_registry_deterministic(r1: Registry, r2: Registry)
    requires
        r1.wf(),
        r2.wf(),
        r1.prefix@ == r2.prefix@,
        r1.root_display@ == r2.root_display@,
        is_zenoh_message_schema(r1.schema),
        is_zenoh_message_schema(r2.schema),
    ensures
        r1.hf_map.entries() == r2.hf_map.entries(),
        crate::schema::str_views(r1.subtrees@) == crate::schema::str_views(r2.subtrees@),
{
    lemma_zenoh_catalog_deterministic(r1.schema, r2.schema, r1.prefix@, r1.prefix@);
}

} // verus!
