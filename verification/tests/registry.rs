use orb_fdw::cell::TypeTag;
use orb_fdw::error::OrbFdwError;
use orb_fdw::schema::schema_for;

fn table(resource: &str) -> Vec<(String, String, TypeTag)> {
    schema_for(&resource.to_string())
        .unwrap()
        .fields
        .into_iter()
        .map(|f| (f.source_path, f.target_column, f.tag))
        .collect()
}

fn row(path: &str, column: &str, tag: TypeTag) -> (String, String, TypeTag) {
    (path.to_string(), column.to_string(), tag)
}

#[test]
fn customers_table_matches_the_wire_contract() {
    assert_eq!(
        table("customers"),
        vec![
            row("id", "user_id", TypeTag::Text),
            row("external_customer_id", "organization_id", TypeTag::Text),
            row("name", "first_name", TypeTag::Text),
            row("email", "email", TypeTag::Text),
            row("payment_provider_id", "stripe_id", TypeTag::Text),
            row("created_at", "created_at", TypeTag::TimestampIso8601),
        ]
    );
}

#[test]
fn subscriptions_table_matches_the_wire_contract() {
    assert_eq!(
        table("subscriptions"),
        vec![
            row("id", "subscription_id", TypeTag::Text),
            row("customer.external_customer_id", "organization_id", TypeTag::Text),
            row("status", "status", TypeTag::Text),
            row("plan.external_plan_id", "plan", TypeTag::Text),
            row("current_billing_period_start_date", "started_date", TypeTag::TimestampIso8601),
            row("current_billing_period_end_date", "end_date", TypeTag::TimestampIso8601),
        ]
    );
}

#[test]
fn invoices_table_matches_the_wire_contract() {
    assert_eq!(
        table("invoices"),
        vec![
            row("subscription.id", "subscription_id", TypeTag::Text),
            row("customer.id", "customer_id", TypeTag::Text),
            row("customer.external_customer_id", "organization_id", TypeTag::Text),
            row("status", "status", TypeTag::Text),
            row("invoice_date", "due_date", TypeTag::TimestampIso8601),
            row("amount_due", "amount", TypeTag::Text),
        ]
    );
}

#[test]
fn every_registered_schema_has_distinct_target_columns() {
    for resource in ["customers", "subscriptions", "invoices"] {
        let t = table(resource);
        for i in 0..t.len() {
            for j in (i + 1)..t.len() {
                assert_ne!(t[i].1, t[j].1, "duplicate column in {}", resource);
            }
        }
    }
}

#[test]
fn lookup_is_by_exact_name() {
    assert!(schema_for(&"customers".to_string()).is_ok());
    assert!(matches!(
        schema_for(&"Customers".to_string()),
        Err(OrbFdwError::UnknownResource(_))
    ));
    assert!(matches!(
        schema_for(&"customer".to_string()),
        Err(OrbFdwError::UnknownResource(_))
    ));
    assert!(matches!(schema_for(&"".to_string()), Err(OrbFdwError::UnknownResource(_))));
}
