//! Plans for masking policies.

use vstd::prelude::*;

use crate::schema::DataSchema;
use crate::schema::FieldView;

verus! {

/// An argument of a policy, with its type in words.
#[derive(Debug)]
pub struct DataMaskArg {
    pub arg_name: String,
    pub arg_type: String,
}

/// A policy, with its types and its body in words.
#[derive(Debug)]
pub struct DataMaskPolicy {
    pub args: Vec<DataMaskArg>,
    pub return_type: String,
    pub body: String,
    pub comment: Option<String>,
}

#[derive(Debug)]
pub struct CreateDatamaskPolicyPlan {
    pub if_not_exists: bool,
    pub tenant: String,
    pub name: String,
    pub policy: DataMaskPolicy,
}

#[derive(Debug)]
pub struct DatamaskNameIdent {
    pub tenant: String,
    pub name: String,
}

/// A request to create a policy.
#[derive(Debug)]
pub struct CreateDatamaskReq {
    pub if_not_exists: bool,
    pub name: DatamaskNameIdent,
    pub args: Vec<(String, String)>,
    pub return_type: String,
    pub body: String,
    pub comment: Option<String>,
    /// When it was made, in seconds.
    pub create_on: i64,
}

/// The names of arguments with their types.
pub open spec fn arg_pairs(args: Seq<DataMaskArg>) -> Seq<(Seq<char>, Seq<char>)> {
    args.map_values(|a: DataMaskArg| (a.arg_name@, a.arg_type@))
}

pub open spec fn text_pairs(v: Seq<(String, String)>) -> Seq<(Seq<char>, Seq<char>)> {
    v.map_values(|p: (String, String)| (p.0@, p.1@))
}

fn empty_schema() -> (r: DataSchema)
    ensures
        r@ == Seq::<FieldView>::empty(),
{
    let r = DataSchema { fields: Vec::new() };
    assert(r@ =~= Seq::<FieldView>::empty());
    r
}

impl CreateDatamaskPolicyPlan {
    /// The plan gives no columns.
    pub fn schema(&self) -> (r: DataSchema)
        ensures
            r@ == Seq::<FieldView>::empty(),
    {
        empty_schema()
    }

    /// The request for a plan, made at a time.
    pub fn into_request(self, create_on: i64) -> (r: CreateDatamaskReq)
        ensures
            r.if_not_exists == self.if_not_exists,
            r.name.tenant == self.tenant,
            r.name.name == self.name,
            text_pairs(r.args@) == arg_pairs(self.policy.args@),
            r.return_type == self.policy.return_type,
            r.body == self.policy.body,
            r.comment == self.policy.comment,
            r.create_on == create_on,
    {
        let policy = self.policy;
        let mut args: Vec<(String, String)> = Vec::new();
        let mut i: usize = 0;
        while i < policy.args.len()
            invariant
                i <= policy.args@.len(),
                args@.len() == i,
                forall|j: int|
                    0 <= j < i ==> (#[trigger] args@[j]).0@ == policy.args@[j].arg_name@ && args@[j].1@
                        == policy.args@[j].arg_type@,
            decreases policy.args.len() - i,
        {
            args.push((policy.args[i].arg_name.clone(), policy.args[i].arg_type.clone()));
            i += 1;
        }
        assert(text_pairs(args@) =~= arg_pairs(policy.args@));
        CreateDatamaskReq {
            if_not_exists: self.if_not_exists,
            name: DatamaskNameIdent { tenant: self.tenant, name: self.name },
            args,
            return_type: policy.return_type,
            body: policy.body,
            comment: policy.comment,
            create_on,
        }
    }
}

#[derive(Debug)]
pub struct DropDatamaskPolicyPlan {
    pub if_exists: bool,
    pub name: String,
}

impl DropDatamaskPolicyPlan {
    /// The plan gives no columns.
    pub fn schema(&self) -> (r: DataSchema)
        ensures
            r@ == Seq::<FieldView>::empty(),
    {
        empty_schema()
    }
}

/// The arguments of a policy are handed on in their order, each name with its type.
pub proof fn arguments_keep_their_types(policy: Seq<DataMaskArg>, request: Seq<(String, String)>, i: int)
    requires
        text_pairs(request) == arg_pairs(policy),
        0 <= i < policy.len(),
    ensures
        request.len() == policy.len(),
        request[i].0@ == policy[i].arg_name@,
        request[i].1@ == policy[i].arg_type@,
{
    assert(text_pairs(request).len() == request.len());
    assert(arg_pairs(policy).len() == policy.len());
    assert(text_pairs(request)[i] == arg_pairs(policy)[i]);
}

}
