use figura::{Context, Decimal, Template, Value};

#[test]
fn email_template_end_to_end() {
    let text = "Dear {name},\n\nThank you for your order #{order_id}!\n\nItems ordered: {item_count}\nSubtotal: ${subtotal}\nTax: ${tax}\nTotal: ${total}\n\nYour order will be shipped to:\n{address}\n\nBest regards,\nThe Team";
    let template = Template::parse_default(text).unwrap();
    let mut ctx = Context::new();
    ctx.insert("name", Value::text("Alice Smith"));
    ctx.insert("order_id", Value::Int(12345));
    ctx.insert("item_count", Value::Int(3));
    ctx.insert("subtotal", Value::Float(Decimal::new(9999, 2).unwrap()));
    ctx.insert("tax", Value::Float(Decimal::new(850, 2).unwrap()));
    ctx.insert("total", Value::Float(Decimal::new(10849, 2).unwrap()));
    ctx.insert("address", Value::text("123 Main St, City, ST 12345"));
    let out = template.format(&ctx).unwrap();
    assert_eq!(
        out,
        "Dear Alice Smith,\n\nThank you for your order #12345!\n\nItems ordered: 3\nSubtotal: $99.99\nTax: $8.50\nTotal: $108.49\n\nYour order will be shipped to:\n123 Main St, City, ST 12345\n\nBest regards,\nThe Team"
    );
}

#[test]
fn conditional_template_end_to_end() {
    let text = "Welcome {name}!\nStatus: {is_premium?Premium Member:Free User}\nAccess Level: {role==admin?Full Access:Limited Access}\nAge Group: {age>=18?Adult:Minor}";
    let template = Template::parse_default(text).unwrap();
    let mut ctx = Context::new();
    ctx.insert("name", Value::text("Bob"));
    ctx.insert("is_premium", Value::Bool(true));
    ctx.insert("role", Value::text("admin"));
    ctx.insert("age", Value::Int(25));
    let out = template.format(&ctx).unwrap();
    assert_eq!(
        out,
        "Welcome Bob!\nStatus: Premium Member\nAccess Level: Full Access\nAge Group: Adult"
    );
}

#[test]
fn switch_with_three_cases() {
    let template = Template::parse_default(
        "{[status](active:Online)(inactive:Offline)(maintenance:Under Maintenance)}",
    )
    .unwrap();
    let mut ctx = Context::new();
    ctx.insert("status", Value::text("maintenance"));
    assert_eq!(template.format(&ctx).unwrap(), "Under Maintenance");
}
