use vstd::prelude::*;

use crate::cell::TypeTag;
use crate::error::{ErrorView, OrbFdwError};

verus! {

broadcast use {
    vstd::std_specs::vec::group_vec_axioms,
    vstd::seq::group_seq_axioms,
    vstd::seq_lib::group_seq_lib_default,
};

/// One declarative rule: the value at `source_path` (dot-separated)
/// goes to column `target_column` as type `tag`.
pub struct FieldMapping {
    pub source_path: String,
    pub target_column: String,
    pub tag: TypeTag,
}

pub struct FieldMappingView {
    pub source_path: Seq<char>,
    pub target_column: Seq<char>,
    pub tag: TypeTag,
}

impl View for FieldMapping {
    type V = FieldMappingView;

    open spec fn view(&self) -> FieldMappingView {
        FieldMappingView {
            source_path: self.source_path@,
            target_column: self.target_column@,
            tag: self.tag,
        }
    }
}

/// The ordered field mappings of one resource.
pub struct ResourceSchema {
    pub name: String,
    pub fields: Vec<FieldMapping>,
}

pub struct SchemaView {
    pub name: Seq<char>,
    pub fields: Seq<FieldMappingView>,
}

impl View for ResourceSchema {
    type V = SchemaView;

    open spec fn view(&self) -> SchemaView {
        SchemaView { name: self.name@, fields: self.fields@.map_values(|f: FieldMapping| f@) }
    }
}

/// Target columns are pairwise distinct.
pub open spec fn distinct_columns(fields: Seq<FieldMappingView>) -> bool {
    forall|i: int, j: int|
        0 <= i < j < fields.len() ==> #[trigger] fields[i].target_column
            != #[trigger] fields[j].target_column
}

/// The `customers` mapping table of the wire contract.
pub open spec fn customers_fields() -> Seq<FieldMappingView> {
    seq![
        FieldMappingView {
            source_path: "id"@,
            target_column: "user_id"@,
            tag: TypeTag::Text,
        },
        FieldMappingView {
            source_path: "external_customer_id"@,
            target_column: "organization_id"@,
            tag: TypeTag::Text,
        },
        FieldMappingView {
            source_path: "name"@,
            target_column: "first_name"@,
            tag: TypeTag::Text,
        },
        FieldMappingView {
            source_path: "email"@,
            target_column: "email"@,
            tag: TypeTag::Text,
        },
        FieldMappingView {
            source_path: "payment_provider_id"@,
            target_column: "stripe_id"@,
            tag: TypeTag::Text,
        },
        FieldMappingView {
            source_path: "created_at"@,
            target_column: "created_at"@,
            tag: TypeTag::TimestampIso8601,
        },
    ]
}

/// The `subscriptions` mapping table of the wire contract.
pub open spec fn subscriptions_fields() -> Seq<FieldMappingView> {
    seq![
        FieldMappingView {
            source_path: "id"@,
            target_column: "subscription_id"@,
            tag: TypeTag::Text,
        },
        FieldMappingView {
            source_path: "customer.external_customer_id"@,
            target_column: "organization_id"@,
            tag: TypeTag::Text,
        },
        FieldMappingView {
            source_path: "status"@,
            target_column: "status"@,
            tag: TypeTag::Text,
        },
        FieldMappingView {
            source_path: "plan.external_plan_id"@,
            target_column: "plan"@,
            tag: TypeTag::Text,
        },
        FieldMappingView {
            source_path: "current_billing_period_start_date"@,
            target_column: "started_date"@,
            tag: TypeTag::TimestampIso8601,
        },
        FieldMappingView {
            source_path: "current_billing_period_end_date"@,
            target_column: "end_date"@,
            tag: TypeTag::TimestampIso8601,
        },
    ]
}

/// The `invoices` mapping table of the wire contract.
pub open spec fn invoices_fields() -> Seq<FieldMappingView> {
    seq![
        FieldMappingView {
            source_path: "subscription.id"@,
            target_column: "subscription_id"@,
            tag: TypeTag::Text,
        },
        FieldMappingView {
            source_path: "customer.id"@,
            target_column: "customer_id"@,
            tag: TypeTag::Text,
        },
        FieldMappingView {
            source_path: "customer.external_customer_id"@,
            target_column: "organization_id"@,
            tag: TypeTag::Text,
        },
        FieldMappingView {
            source_path: "status"@,
            target_column: "status"@,
            tag: TypeTag::Text,
        },
        FieldMappingView {
            source_path: "invoice_date"@,
            target_column: "due_date"@,
            tag: TypeTag::TimestampIso8601,
        },
        FieldMappingView {
            source_path: "amount_due"@,
            target_column: "amount"@,
            tag: TypeTag::Text,
        },
    ]
}

/// The page size requests for a resource start from: subscriptions
/// carry heavy nested records and are fetched in smaller pages.
pub open spec fn registry_page_size(name: Seq<char>) -> int {
    if name == "subscriptions"@ {
        75
    } else {
        500
    }
}

/// The closed set of resources the connector knows.
pub open spec fn registered(name: Seq<char>) -> bool {
    name == "customers"@ || name == "subscriptions"@ || name == "invoices"@
}

/// The mapping table registered for a resource name.
pub open spec fn registry_fields(name: Seq<char>) -> Seq<FieldMappingView> {
    if name == "customers"@ {
        customers_fields()
    } else if name == "subscriptions"@ {
        subscriptions_fields()
    } else if name == "invoices"@ {
        invoices_fields()
    } else {
        Seq::empty()
    }
}

/// Every registered mapping table has pairwise distinct target
/// columns.
pub proof fn lemma_registry_distinct(name: Seq<char>)
    ensures
        distinct_columns(registry_fields(name)),
{
    reveal_strlit("user_id");
    reveal_strlit("organization_id");
    reveal_strlit("first_name");
    reveal_strlit("email");
    reveal_strlit("stripe_id");
    reveal_strlit("created_at");
    reveal_strlit("subscription_id");
    reveal_strlit("status");
    reveal_strlit("plan");
    reveal_strlit("started_date");
    reveal_strlit("end_date");
    reveal_strlit("customer_id");
    reveal_strlit("due_date");
    reveal_strlit("amount");
    assert("user_id"@.len() == 7);
    assert("organization_id"@.len() == 15);
    assert("first_name"@.len() == 10);
    assert("email"@.len() == 5);
    assert("stripe_id"@.len() == 9);
    assert("created_at"@.len() == 10);
    assert("subscription_id"@.len() == 15);
    assert("status"@.len() == 6);
    assert("plan"@.len() == 4);
    assert("started_date"@.len() == 12);
    assert("end_date"@.len() == 8);
    assert("customer_id"@.len() == 11);
    assert("due_date"@.len() == 8);
    assert("amount"@.len() == 6);
    assert("first_name"@[0] == 'f' && "created_at"@[0] == 'c');
    assert("subscription_id"@[0] == 's' && "organization_id"@[0] == 'o');
    assert("status"@[0] == 's' && "amount"@[0] == 'a');
    assert(distinct_columns(customers_fields()));
    assert(distinct_columns(subscriptions_fields()));
    assert(distinct_columns(invoices_fields()));
    assert(distinct_columns(Seq::<FieldMappingView>::empty()));
}

fn mapping(path: &str, column: &str, tag: TypeTag) -> (f: FieldMapping)
    ensures
        f@ == (FieldMappingView { source_path: path@, target_column: column@, tag }),
{
    FieldMapping { source_path: path.to_owned(), target_column: column.to_owned(), tag }
}

/// Pure lookup over the closed registry: the schema of a registered
/// resource, or `UnknownResource` for any other name.
pub fn schema_for(resource: &String) -> (r: Result<ResourceSchema, OrbFdwError>)
    ensures
        registered(resource@) ==> (match r {
            Result::Ok(s) => s@.name == resource@ && s@.fields == registry_fields(resource@)
                && distinct_columns(s@.fields),
            Result::Err(_) => false,
        }),
        !registered(resource@) ==> (match r {
            Result::Ok(_) => false,
            Result::Err(e) => e@ == ErrorView::UnknownResource(resource@),
        }),
{
    let customers: String = String::from_str("customers");
    let subscriptions: String = String::from_str("subscriptions");
    let invoices: String = String::from_str("invoices");
    let mut fields: Vec<FieldMapping> = Vec::new();
    if *resource == customers {
        fields.push(mapping("id", "user_id", TypeTag::Text));
        fields.push(mapping("external_customer_id", "organization_id", TypeTag::Text));
        fields.push(mapping("name", "first_name", TypeTag::Text));
        fields.push(mapping("email", "email", TypeTag::Text));
        fields.push(mapping("payment_provider_id", "stripe_id", TypeTag::Text));
        fields.push(mapping("created_at", "created_at", TypeTag::TimestampIso8601));
        proof {
            assert(fields@.map_values(|f: FieldMapping| f@) =~= customers_fields());
            lemma_registry_distinct(resource@);
        }
        return Result::Ok(ResourceSchema { name: resource.clone(), fields });
    }
    if *resource == subscriptions {
        fields.push(mapping("id", "subscription_id", TypeTag::Text));
        fields.push(mapping("customer.external_customer_id", "organization_id", TypeTag::Text));
        fields.push(mapping("status", "status", TypeTag::Text));
        fields.push(mapping("plan.external_plan_id", "plan", TypeTag::Text));
        fields.push(
            mapping("current_billing_period_start_date", "started_date", TypeTag::TimestampIso8601),
        );
        fields.push(
            mapping("current_billing_period_end_date", "end_date", TypeTag::TimestampIso8601),
        );
        proof {
            assert(fields@.map_values(|f: FieldMapping| f@) =~= subscriptions_fields());
            lemma_registry_distinct(resource@);
        }
        return Result::Ok(ResourceSchema { name: resource.clone(), fields });
    }
    if *resource == invoices {
        fields.push(mapping("subscription.id", "subscription_id", TypeTag::Text));
        fields.push(mapping("customer.id", "customer_id", TypeTag::Text));
        fields.push(mapping("customer.external_customer_id", "organization_id", TypeTag::Text));
        fields.push(mapping("status", "status", TypeTag::Text));
        fields.push(mapping("invoice_date", "due_date", TypeTag::TimestampIso8601));
        fields.push(mapping("amount_due", "amount", TypeTag::Text));
        proof {
            assert(fields@.map_values(|f: FieldMapping| f@) =~= invoices_fields());
            lemma_registry_distinct(resource@);
        }
        return Result::Ok(ResourceSchema { name: resource.clone(), fields });
    }
    Result::Err(OrbFdwError::UnknownResource(resource.clone()))
}

} // verus!
