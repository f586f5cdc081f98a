use extension_host::common::{
    Element, JsonValue, MenuItem, MenuKind, RenderElementAttributes, RenderElementProps,
    RenderLeafAttributes, RenderLeafProps, Text,
};
use extension_host::error::Error;
use extension_host::ext_table::ExtTable;
use extension_host::extension::Extension;
use extension_host::hooks::Hook;
use extension_host::host::Host;
use std::cell::RefCell;

fn leb(mut n: usize, out: &mut Vec<u8>) {
    loop {
        let byte = (n & 0x7f) as u8;
        n >>= 7;
        if n == 0 {
            out.push(byte);
            return;
        }
        out.push(byte | 0x80);
    }
}

/// A module that exports a function under each of `names`.
fn module_with_exports(names: &[&str]) -> Vec<u8> {
    let mut out = vec![0x00, 0x61, 0x73, 0x6d, 0x01, 0x00, 0x00, 0x00];
    out.extend([0x01, 0x04, 0x01, 0x60, 0x00, 0x00]);
    let mut funcs = Vec::new();
    leb(names.len(), &mut funcs);
    funcs.extend(std::iter::repeat(0x00).take(names.len()));
    out.push(0x03);
    leb(funcs.len(), &mut out);
    out.extend(funcs);
    let mut exports = Vec::new();
    leb(names.len(), &mut exports);
    for (i, name) in names.iter().enumerate() {
        leb(name.len(), &mut exports);
        exports.extend_from_slice(name.as_bytes());
        exports.push(0x00);
        leb(i, &mut exports);
    }
    out.push(0x07);
    leb(exports.len(), &mut out);
    out.extend(exports);
    let mut code = Vec::new();
    leb(names.len(), &mut code);
    for _ in names {
        code.extend([0x02, 0x00, 0x0b]);
    }
    out.push(0x0a);
    leb(code.len(), &mut out);
    out.extend(code);
    out
}

/// A host with the extensions `ids` loaded, each of which exports every
/// hook. They are loaded in the order given.
fn host_with(ids: &[&str]) -> Host<ExtTable> {
    let module = module_with_exports(&["menu", "render_element", "render_leaf"]);
    let mut table = ExtTable::new();
    for id in ids {
        table.install(id, &module).unwrap();
    }
    let mut host = Host::new(table).unwrap();
    for id in ids {
        host.load_extension(id).unwrap();
    }
    host
}

fn item(title: &str) -> MenuItem {
    MenuItem { title: title.to_string() }
}

fn trap(why: &str) -> Error {
    Error::HookExecution(why.to_string())
}

fn leaf(text: &str) -> RenderLeafProps {
    RenderLeafProps {
        children: vec![JsonValue::String(text.to_string())],
        leaf: Text { text: text.to_string() },
        text: Text { text: text.to_string() },
        attributes: RenderLeafAttributes { data_slate_leaf: true },
    }
}

fn paragraph() -> RenderElementProps {
    RenderElementProps {
        children: Vec::new(),
        element: Element { kind: "paragraph".to_string(), children: Vec::new() },
        attributes: RenderElementAttributes {
            data_slate_node: "element".to_string(),
            data_slate_inline: true,
            data_slate_void: true,
            dir: Some("rtl".to_string()),
            reference: JsonValue::Null,
        },
    }
}

fn wrap(tag: &str, request: &RenderLeafProps) -> Result<String, Error> {
    match &request.children[..] {
        [JsonValue::String(child)] => Ok(format!("<{}>{}</{}>", tag, child, tag)),
        _ => Err(Error::Json("one child expected".to_string())),
    }
}

#[test]
fn menu_over_two_extensions_keeps_what_one_adds() {
    let host = host_with(&["E1", "E2"]);
    let a = item("A");
    let items = host.menu(&MenuKind::Context, |ext: &Extension, hook: Hook, _kind: &MenuKind| {
        assert_eq!(hook, Hook::Menu);
        match ext.id().as_str() {
            "E1" => Ok(vec![item("A")]),
            _ => Ok(Vec::new()),
        }
    });
    assert_eq!(items, Ok(vec![a]));
}

#[test]
fn menu_is_in_the_order_of_the_ids_not_of_loading() {
    let host = host_with(&["E2", "E3", "E1"]);
    let items = host.menu(&MenuKind::Context, |ext: &Extension, _: Hook, _: &MenuKind| {
        match ext.id().as_str() {
            "E3" => Err(trap("E3")),
            id => Ok(vec![item(id), item(&format!("{}'", id))]),
        }
    });
    assert_eq!(items, Ok(vec![item("E1"), item("E1'"), item("E2"), item("E2'")]));
}

#[test]
fn menu_without_extensions_or_answers_is_empty() {
    let nobody = host_with(&[]);
    let call = |_: &Extension, _: Hook, _: &MenuKind| -> Result<Vec<MenuItem>, Error> {
        Err(trap("x"))
    };
    assert_eq!(nobody.menu(&MenuKind::Context, call), Ok(Vec::new()));
    let host = host_with(&["E1", "E2"]);
    assert_eq!(host.menu(&MenuKind::Context, call), Ok(Vec::new()));
}

#[test]
fn parallel_calls_every_extension_once() {
    let host = host_with(&["b", "a", "c"]);
    let called = RefCell::new(Vec::new());
    let out = host.hook_parallel(Hook::Menu, &7u32, |ext: &Extension, _: Hook, n: &u32| {
        called.borrow_mut().push(ext.id().clone());
        if ext.id() == "b" {
            Err(trap("b"))
        } else {
            Ok(*n + ext.id().len() as u32)
        }
    });
    assert_eq!(out, Ok(vec![8, 8]));
    assert_eq!(called.into_inner(), vec!["a".to_string(), "b".to_string(), "c".to_string()]);
}

#[test]
fn render_element_takes_the_extension_that_succeeds() {
    let host = host_with(&["E1", "E2"]);
    let html = host.render_element(&paragraph(), |ext: &Extension, hook: Hook, props: &RenderElementProps| {
        assert_eq!(hook, Hook::RenderElement);
        assert_eq!(props.element.kind, "paragraph");
        match ext.id().as_str() {
            "E1" => Err(trap("E1")),
            _ => Ok("<p>x</p>".to_string()),
        }
    });
    assert_eq!(html, Ok("<p>x</p>".to_string()));
}

#[test]
fn render_element_fails_with_the_last_error() {
    let host = host_with(&["E1", "E2"]);
    let html = host.render_element(&paragraph(), |ext: &Extension, _: Hook, _: &RenderElementProps| {
        Err::<String, Error>(trap(ext.id()))
    });
    assert_eq!(html, Err(trap("E2")));
}

#[test]
fn host_render_element_without_extensions_is_not_found() {
    let host = host_with(&[]);
    let html = host.render_element(&paragraph(), |_: &Extension, _: Hook, _: &RenderElementProps| {
        Ok("never".to_string())
    });
    assert_eq!(html, Err(Error::NotFound));
}

#[test]
fn first_stops_calling_after_a_success() {
    let host = host_with(&["a", "b", "c"]);
    let called = RefCell::new(Vec::new());
    let out = host.hook_first(Hook::RenderElement, &(), |ext: &Extension, _: Hook, _: &()| {
        called.borrow_mut().push(ext.id().clone());
        if ext.id() == "a" {
            Err(trap("a"))
        } else {
            Ok(ext.id().clone())
        }
    });
    assert_eq!(out, Ok("b".to_string()));
    assert_eq!(called.into_inner(), vec!["a".to_string(), "b".to_string()]);
}

#[test]
fn render_leaf_wraps_in_the_order_of_the_ids() {
    let host = host_with(&["E1", "E2"]);
    let rendered = host.render_leaf(&leaf("hi"), |ext: &Extension, hook: Hook, request: &RenderLeafProps| {
        assert_eq!(hook, Hook::RenderLeaf);
        assert_eq!(request.leaf.text, "hi");
        match ext.id().as_str() {
            "E1" => wrap("b", request),
            _ => wrap("i", request),
        }
    });
    assert_eq!(rendered, Ok("<i><b>hi</b></i>".to_string()));
}

#[test]
fn render_leaf_goes_by_id_whatever_was_loaded_first() {
    let host = host_with(&["E2", "E1"]);
    let rendered = host.render_leaf(&leaf("hi"), |ext: &Extension, _: Hook, request: &RenderLeafProps| {
        match ext.id().as_str() {
            "E1" => wrap("b", request),
            _ => wrap("i", request),
        }
    });
    assert_eq!(rendered, Ok("<i><b>hi</b></i>".to_string()));
}

#[test]
fn render_leaf_fails_as_soon_as_one_fails() {
    let host = host_with(&["E1", "E2", "E3"]);
    let called = RefCell::new(0);
    let rendered = host.render_leaf(&leaf("hi"), |ext: &Extension, _: Hook, request: &RenderLeafProps| {
        *called.borrow_mut() += 1;
        match ext.id().as_str() {
            "E2" => Err(trap("E2")),
            _ => wrap("b", request),
        }
    });
    assert_eq!(rendered, Err(trap("E2")));
    assert_eq!(called.into_inner(), 2);
}

#[test]
fn host_render_leaf_without_extensions_is_not_found() {
    let host = host_with(&[]);
    let rendered = host.render_leaf(&leaf("hi"), |_: &Extension, _: Hook, request: &RenderLeafProps| {
        wrap("b", request)
    });
    assert_eq!(rendered, Err(Error::NotFound));
}

#[test]
fn fold_hands_each_answer_on_through_the_transform() {
    let host = host_with(&["a", "b", "c"]);
    let out = host.hook_fold(
        Hook::RenderLeaf,
        &1u32,
        |ext: &Extension, _: Hook, n: &u32| Ok::<u32, Error>(*n * 10 + ext.id().len() as u32),
        |answer: u32| answer + 1,
    );
    // a: 1 -> 11, then 12; b: 12 -> 121, then 122; c: 122 -> 1221
    assert_eq!(out, Ok(1221));
}

#[test]
fn fold_over_one_extension_returns_its_answer() {
    let host = host_with(&["only"]);
    let out = host.hook_fold(
        Hook::RenderLeaf,
        &1u32,
        |_: &Extension, _: Hook, n: &u32| Ok::<u32, Error>(*n + 1),
        |answer: u32| answer * 100,
    );
    assert_eq!(out, Ok(2));
}
