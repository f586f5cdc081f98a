use extension_host::common::{
    JsonValue, MenuItem, MenuKind, RenderLeafAttributes, RenderLeafProps, Text,
};
use extension_host::dispatch::{
    hook_first, hook_fold_next, hook_fold_start, hook_parallel, FoldStep, Race, RaceStep,
};
use extension_host::error::Error;
use extension_host::hooks::menu::menu;
use extension_host::hooks::render_element::render_element;
use extension_host::hooks::render_leaf::{next_props, render_leaf_next, render_leaf_start};

fn item(title: &str) -> MenuItem {
    MenuItem { title: title.to_string() }
}

fn trap(why: &str) -> Error {
    Error::HookExecution(why.to_string())
}

fn props(text: &str) -> RenderLeafProps {
    RenderLeafProps {
        children: vec![JsonValue::String(text.to_string())],
        leaf: Text { text: text.to_string() },
        text: Text { text: text.to_string() },
        attributes: RenderLeafAttributes { data_slate_leaf: true },
    }
}

fn child_text(props: &RenderLeafProps) -> String {
    match &props.children[..] {
        [JsonValue::String(s)] => s.clone(),
        other => panic!("unexpected children {:?}", other),
    }
}

/// Runs a fold to its end with the extensions `wraps`, each of which wraps
/// the one child of its request in its tag, or fails where it has none.
fn render_leaf_with(wraps: &[Option<&str>], input: &str) -> Result<String, Error> {
    let first = props(input);
    let mut step = render_leaf_start(wraps.len(), props(input));
    loop {
        match step {
            FoldStep::Done(rendered) => return Ok(rendered),
            FoldStep::Failed(e) => return Err(e),
            FoldStep::Call { index, request } => {
                let outcome = match wraps[index] {
                    Some(tag) => Ok(format!("<{}>{}</{}>", tag, child_text(&request), tag)),
                    None => Err(trap("boom")),
                };
                step = render_leaf_next(wraps.len(), index, &first, outcome);
            }
        }
    }
}

#[test]
fn menu_collects_the_items_of_all_extensions() {
    let a = item("A");
    assert_eq!(menu(vec![Ok(vec![a.clone()]), Ok(vec![])]), Ok(vec![a.clone()]));
    assert_eq!(
        menu(vec![Ok(vec![item("b1"), item("b2")]), Ok(vec![a.clone()]), Ok(vec![item("c")])]),
        Ok(vec![item("b1"), item("b2"), a, item("c")])
    );
}

#[test]
fn menu_drops_the_extensions_that_failed() {
    assert_eq!(
        menu(vec![Err(trap("x")), Ok(vec![item("A")]), Err(Error::Json("eof".to_string())), Ok(vec![item("B")])]),
        Ok(vec![item("A"), item("B")])
    );
    assert_eq!(menu(vec![Err(trap("x")), Err(trap("y"))]), Ok(vec![]));
}

#[test]
fn menu_without_extensions_is_empty() {
    assert_eq!(menu(Vec::new()), Ok(Vec::new()));
    assert_eq!(MenuKind::Context, MenuKind::Context);
}

#[test]
fn parallel_keeps_the_order_of_the_answers() {
    let outcomes: Vec<Result<u32, Error>> = vec![Ok(3), Err(trap("x")), Ok(1), Ok(2), Err(trap("y"))];
    assert_eq!(hook_parallel(outcomes), vec![3, 1, 2]);
    assert_eq!(hook_parallel(Vec::<Result<u32, Error>>::new()), Vec::<u32>::new());
    assert_eq!(hook_parallel(vec![Err::<u32, Error>(trap("x"))]), Vec::<u32>::new());
}

#[test]
fn render_element_takes_the_one_that_succeeds_in_either_order() {
    let html = "<p>x</p>".to_string();
    assert_eq!(render_element(vec![Err(trap("e1")), Ok(html.clone())]), Ok(html.clone()));
    assert_eq!(render_element(vec![Ok(html.clone()), Err(trap("e1"))]), Ok(html));
}

#[test]
fn render_element_fails_where_all_fail() {
    assert_eq!(render_element(vec![Err(trap("e1")), Err(trap("e2"))]), Err(trap("e2")));
    assert_eq!(render_element(vec![Err(trap("e2")), Err(trap("e1"))]), Err(trap("e1")));
    assert_eq!(render_element(vec![Err(Error::Json("eof".to_string()))]), Err(Error::Json("eof".to_string())));
}

#[test]
fn render_element_without_extensions_is_not_found() {
    assert_eq!(render_element(Vec::new()), Err(Error::NotFound));
}

#[test]
fn first_takes_the_first_to_complete() {
    let completed: Vec<Result<u32, Error>> = vec![Err(trap("a")), Ok(2), Ok(1), Err(trap("b"))];
    assert_eq!(hook_first(completed), Ok(2));
    assert_eq!(hook_first(vec![Ok::<u32, Error>(5)]), Ok(5));
}

#[test]
fn race_waits_until_one_wins() {
    let mut race = Race::start(3).unwrap();
    assert_eq!(race.waiting(), 3);
    assert!(matches!(race.observe::<u32>(Err(trap("a"))), RaceStep::Waiting));
    assert_eq!(race.waiting(), 2);
    assert!(matches!(race.observe(Ok(7u32)), RaceStep::Won(7)));
    assert_eq!(race.waiting(), 0);
}

#[test]
fn race_is_lost_with_the_last_error() {
    let mut race = Race::start(2).unwrap();
    assert!(matches!(race.observe::<u32>(Err(trap("a"))), RaceStep::Waiting));
    match race.observe::<u32>(Err(trap("b"))) {
        RaceStep::Lost(e) => assert_eq!(e, trap("b")),
        _ => panic!("the race should be lost"),
    }
    assert_eq!(race.waiting(), 0);
}

#[test]
fn race_without_runners_is_not_found() {
    assert!(matches!(Race::start(0), Err(Error::NotFound)));
}

#[test]
fn render_leaf_applies_the_extensions_in_order() {
    assert_eq!(render_leaf_with(&[Some("b"), Some("i")], "hi"), Ok("<i><b>hi</b></i>".to_string()));
    assert_eq!(render_leaf_with(&[Some("i"), Some("b")], "hi"), Ok("<b><i>hi</i></b>".to_string()));
    assert_eq!(render_leaf_with(&[Some("u")], "hi"), Ok("<u>hi</u>".to_string()));
    assert_eq!(
        render_leaf_with(&[Some("a"), Some("b"), Some("c")], ""),
        Ok("<c><b><a></a></b></c>".to_string())
    );
}

#[test]
fn render_leaf_fails_at_the_first_failure() {
    assert_eq!(render_leaf_with(&[None, Some("i")], "hi"), Err(trap("boom")));
    assert_eq!(render_leaf_with(&[Some("b"), None], "hi"), Err(trap("boom")));
    assert_eq!(render_leaf_with(&[Some("b"), None, Some("i")], "hi"), Err(trap("boom")));
}

#[test]
fn render_leaf_without_extensions_is_not_found() {
    assert_eq!(render_leaf_with(&[], "hi"), Err(Error::NotFound));
}

#[test]
fn next_props_puts_the_rendering_in_place_of_the_children() {
    let before = RenderLeafProps {
        children: vec![JsonValue::Null, JsonValue::Bool(true)],
        leaf: Text { text: "leaf".to_string() },
        text: Text { text: "text".to_string() },
        attributes: RenderLeafAttributes { data_slate_leaf: true },
    };
    let next = next_props(&before, "<b>x</b>".to_string());
    assert_eq!(
        next,
        RenderLeafProps {
            children: vec![JsonValue::String("<b>x</b>".to_string())],
            leaf: Text { text: "leaf".to_string() },
            text: Text { text: "text".to_string() },
            attributes: RenderLeafAttributes { data_slate_leaf: true },
        }
    );
}

#[test]
fn fold_steps_through_the_providers() {
    let double = |r: u32| r * 2;
    let step: FoldStep<u32, u32> = hook_fold_start(3, 1);
    assert!(matches!(step, FoldStep::Call { index: 0, request: 1 }));
    let step: FoldStep<u32, u32> = hook_fold_next(3, 0, Ok(5), &double);
    assert!(matches!(step, FoldStep::Call { index: 1, request: 10 }));
    let step: FoldStep<u32, u32> = hook_fold_next(3, 1, Ok(6), &double);
    assert!(matches!(step, FoldStep::Call { index: 2, request: 12 }));
    let step: FoldStep<u32, u32> = hook_fold_next(3, 2, Ok(7), &double);
    assert!(matches!(step, FoldStep::Done(7)));
}

#[test]
fn fold_stops_at_a_failure() {
    let double = |r: u32| r * 2;
    let step: FoldStep<u32, u32> = hook_fold_next(3, 0, Err(trap("x")), &double);
    match step {
        FoldStep::Failed(e) => assert_eq!(e, trap("x")),
        _ => panic!("the fold should have failed"),
    }
    let step: FoldStep<u32, u32> = hook_fold_start(0, 1);
    assert!(matches!(step, FoldStep::Failed(Error::NotFound)));
}
