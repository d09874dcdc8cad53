use bicit::Context;
use bicit::Template;
use bicit::get_template_by_name;
use bicit::get_templates;
use bicit::maphref::map_data_href;

fn b(s: &str) -> Vec<u8> {
    s.as_bytes().to_vec()
}

#[test]
fn builtin_template_is_listed_and_found() {
    let all = get_templates();
    assert_eq!(all.len(), 1);
    assert_eq!(all[0].name, b("plain"));
    let found = get_template_by_name(b"plain").unwrap();
    assert_eq!(found.content, all[0].content);
    assert!(get_template_by_name(b"missing").is_none());
}

#[test]
fn builtin_template_scans_and_applies() {
    let tpl = Template::new(get_template_by_name(b"plain").unwrap().content);
    let ctx = Context::new(b("x.gpx"));
    // Without loaded data every placeholder is unresolved: the template
    // comes back unchanged.
    let out = tpl.apply_context(&ctx).unwrap();
    assert_eq!(out, tpl.content);
}

#[test]
fn map_href_wraps_png_bytes_in_base64() {
    assert_eq!(map_data_href(b"Man"), b("data:image/png;base64,TWFu"));
    assert_eq!(map_data_href(b"M"), b("data:image/png;base64,TQ=="));
    assert_eq!(map_data_href(b""), b("data:image/png;base64,"));
}
