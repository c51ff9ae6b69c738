use typhoondsl_outliner::actions::{
    block_c1, component_c1, configuration_c1, configuration_opt_configuration,
    configuration_opt_empty, element0_element1, element0_empty, element1_c1, element1_element,
    element_block, element_component, element_handler, handler_c1, id, idopt_empty, idopt_id,
    model_c1, name, type_name_id, type_name_name, Element, Location, Model, TypeName,
};
use typhoondsl_outliner::lexer::{Ctx, Token, TokenKind};
use typhoondsl_outliner::location::{LineColumn, Position, SourceLocation};

fn lc(line: usize, column: usize) -> Position {
    Position::LineBased(LineColumn { line, column })
}

fn span_ctx<'i>() -> Ctx<'i> {
    Ctx {
        position: 0,
        location: SourceLocation { start: lc(2, 4), end: Some(lc(7, 1)) },
        layout_ahead: None,
    }
}

fn token(value: &str) -> Token<'_> {
    Token {
        kind: TokenKind::Name,
        value,
        location: SourceLocation { start: Position::Position(0), end: None },
    }
}

fn assert_span(l: &Location) {
    assert_eq!((l.line_start, l.column_start, l.line_end, l.column_end), (2, 4, 7, 1));
}

fn handler(ctx: &Ctx, n: &str) -> Element {
    element_handler(ctx, handler_c1(ctx, (), n.to_string(), (), ()))
}

#[test]
fn names_lose_their_quotes() {
    let ctx = span_ctx();
    assert_eq!(name(&ctx, token("\"Battery 1\"")), "Battery 1");
    assert_eq!(name(&ctx, token("'core'")), "core");
    assert_eq!(name(&ctx, token("\"\u{e9}t\u{e9}\"")), "\u{e9}t\u{e9}");
    assert_eq!(name(&ctx, token("\"")), "");
    assert_eq!(name(&ctx, token("\"\"")), "");
    assert_eq!(name(&ctx, token("plain")), "plain");
    assert_eq!(name(&ctx, token("a\"b\"")), "a\"b\"");
}

#[test]
fn identifiers_keep_their_text() {
    let ctx = span_ctx();
    assert_eq!(id(&ctx, token("on_init")), "on_init");
}

#[test]
fn location_from_line_span() {
    let l = Location::from_location(SourceLocation { start: lc(1, 0), end: Some(lc(1, 9)) });
    assert_eq!((l.line_start, l.column_start, l.line_end, l.column_end), (1, 0, 1, 9));
}

#[test]
fn model_keeps_its_parts() {
    let ctx = span_ctx();
    let conf = configuration_c1(&ctx, (), block_c1(&ctx, (), None, ()));
    assert_span(&conf.location);
    let elements = element0_element1(&ctx, element1_element(&ctx, handler(&ctx, "h")));
    let model = model_c1(&ctx, (), "m".to_string(), (), configuration_opt_configuration(&ctx, conf), elements, ());
    assert_eq!(model.name, "m");
    assert_span(&model.location);
    assert!(model.configuration.is_some());
    assert_eq!(model.elements.as_ref().map(|v| v.len()), Some(1));
    assert!(configuration_opt_empty(&ctx).is_none());
}

#[test]
fn component_takes_type_text() {
    let ctx = span_ctx();
    let c = component_c1(
        &ctx,
        (),
        type_name_name(&ctx, "Core".to_string()),
        "c1".to_string(),
        idopt_id(&ctx, "id1".to_string()),
        (),
        element0_empty(&ctx),
        (),
    );
    assert_eq!(c.component_type, "Core");
    assert_eq!(c.name, "c1");
    assert_eq!(c.idopt, Some("id1".to_string()));
    assert!(c.elements.is_none());
    assert_span(&c.location);
    let c2 = component_c1(&ctx, (), type_name_id(&ctx, "ns_type".to_string()), "c2".to_string(), idopt_empty(&ctx), (), None, ());
    assert_eq!(c2.component_type, "ns_type");
    assert_eq!(c2.idopt, None);
}

#[test]
fn type_names_convert_to_their_text() {
    assert_eq!(String::from(TypeName::Name("a b".to_string())), "a b");
    assert_eq!(String::from(TypeName::ID("ab".to_string())), "ab");
}

#[test]
fn element_lists_drop_blocks() {
    let ctx = span_ctx();
    let block = element_block(&ctx, block_c1(&ctx, (), None, ()));
    assert!(matches!(block, Element::Block));
    assert!(element1_element(&ctx, element_block(&ctx, block_c1(&ctx, (), None, ()))).is_empty());
    let list = element1_element(&ctx, handler(&ctx, "h1"));
    let list = element1_c1(&ctx, list, element_block(&ctx, block_c1(&ctx, (), None, ())));
    let comp = component_c1(&ctx, (), type_name_id(&ctx, "T".to_string()), "c".to_string(), None, (), None, ());
    let list = element1_c1(&ctx, list, element_component(&ctx, comp));
    let list = element1_c1(&ctx, list, handler(&ctx, "h2"));
    assert_eq!(list.len(), 3);
    assert!(matches!(&list[0], Element::Handler(h) if h.name == "h1"));
    assert!(matches!(&list[1], Element::Component(c) if c.name == "c"));
    assert!(matches!(&list[2], Element::Handler(h) if h.name == "h2"));
}

#[test]
fn building_a_list_keeps_components_and_handlers_in_order() {
    let ctx = span_ctx();
    let block = || element_block(&ctx, block_c1(&ctx, (), None, ()));
    let elements = vec![block(), handler(&ctx, "a"), block(), block(), handler(&ctx, "b")];
    let mut it = elements.into_iter();
    let mut list = element1_element(&ctx, it.next().unwrap());
    for e in it {
        list = element1_c1(&ctx, list, e);
    }
    let names: Vec<&str> = list
        .iter()
        .map(|e| match e {
            Element::Handler(h) => h.name.as_str(),
            _ => "not a handler",
        })
        .collect();
    assert_eq!(names, vec!["a", "b"]);
}

#[test]
fn clones_copy_the_outline() {
    let ctx = span_ctx();
    let inner = element1_element(&ctx, handler(&ctx, "h"));
    let comp = component_c1(
        &ctx,
        (),
        type_name_name(&ctx, "T".to_string()),
        "c".to_string(),
        idopt_id(&ctx, "i".to_string()),
        (),
        element0_element1(&ctx, inner),
        (),
    );
    let list = element1_element(&ctx, element_component(&ctx, comp));
    let model: Model = model_c1(
        &ctx,
        (),
        "m".to_string(),
        (),
        configuration_opt_configuration(&ctx, configuration_c1(&ctx, (), block_c1(&ctx, (), None, ()))),
        element0_element1(&ctx, list),
        (),
    );
    let copy = model.clone();
    assert_eq!(copy.name, "m");
    assert_span(&copy.location);
    assert_span(&copy.configuration.as_ref().unwrap().location);
    let elements = copy.elements.as_ref().unwrap();
    assert_eq!(elements.len(), 1);
    match &elements[0] {
        Element::Component(c) => {
            assert_eq!(c.component_type, "T");
            assert_eq!(c.name, "c");
            assert_eq!(c.idopt, Some("i".to_string()));
            let inner = c.elements.as_ref().as_ref().unwrap();
            assert!(matches!(&inner[0], Element::Handler(h) if h.name == "h"));
        },
        _ => panic!("expected a component"),
    }
    assert_eq!(format!("{:?}", copy), format!("{:?}", model));
}
