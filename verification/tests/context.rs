use liquid_front::context::{Context, Variable};
use liquid_front::errors::TemplateError;

#[test]
fn new_works() {
    let _context = Context::new();
}

#[test]
fn lookup_missing_val() {
    let context = Context::new();
    assert_eq!(None, context.lookup("testt"));
}

#[test]
fn add_string() {
    let mut context = Context::new();
    context.add("butt", Variable::Text("face".to_string()));
}

#[test]
fn add_and_lookup_string() {
    let mut context = Context::new();
    context.add("butt", Variable::Text("face".to_string()));
    assert_eq!(
        *context.lookup("butt").unwrap(),
        Variable::Text("face".to_string())
    );
}

#[test]
fn add_number() {
    let mut context = Context::new();
    context.add("woop", Variable::Number(123.0f64.to_bits()));
}

#[test]
fn add_and_lookup_number() {
    let mut context = Context::new();
    context.add("whoop", Variable::Number(123.0f64.to_bits()));
    assert_eq!(
        *context.lookup("whoop").unwrap(),
        Variable::Number(123.0f64.to_bits())
    );
}

#[test]
fn add_boolean() {
    let mut context = Context::new();
    context.add("boolean", Variable::Boolean(true));
}

#[test]
fn add_boolean_and_lookup() {
    let mut context = Context::new();
    context.add("boolean", Variable::Boolean(false));
    assert_eq!(*context.lookup("boolean").unwrap(), Variable::Boolean(false));
}

#[test]
fn can_push_new_scope() {
    let mut context = Context::new();
    context.push();
}

#[test]
fn can_push_then_pop_scope() {
    let mut context = Context::new();
    context.push();
    context.pop().unwrap();
}

#[test]
fn cant_pop_when_no_push() {
    let mut context = Context::new();
    assert_eq!(Err(TemplateError::ScopeUnderflow), context.pop());
}

#[test]
fn lookup_current_scope() {
    let mut context = Context::new();
    context.push();
    context.add("test", Variable::Boolean(true));
    assert_eq!(*context.lookup("test").unwrap(), Variable::Boolean(true));
}

#[test]
fn lookup_all_scopes() {
    let mut context = Context::new();
    context.add("test", Variable::Boolean(false));
    context.push();
    assert_eq!(*context.lookup("test").unwrap(), Variable::Boolean(false));
}

#[test]
fn pop_clear_scope() {
    let mut context = Context::new();
    context.push();
    context.add("test", Variable::Boolean(true));
    context.pop().unwrap();
    assert_eq!(None, context.lookup("test"));
}

#[test]
fn inner_binding_shadows_and_pop_uncovers() {
    let mut context = Context::new();
    context.add("x", Variable::Number(1.0f64.to_bits()));
    context.push();
    context.add("x", Variable::Number(2.0f64.to_bits()));
    assert_eq!(
        *context.lookup("x").unwrap(),
        Variable::Number(2.0f64.to_bits())
    );
    context.pop().unwrap();
    assert_eq!(
        *context.lookup("x").unwrap(),
        Variable::Number(1.0f64.to_bits())
    );
}

#[test]
fn overwrite_within_one_frame_wins() {
    let mut context = Context::new();
    context.add("k", Variable::Text("old".to_string()));
    context.add("k", Variable::Text("new".to_string()));
    assert_eq!(
        *context.lookup("k").unwrap(),
        Variable::Text("new".to_string())
    );
}
