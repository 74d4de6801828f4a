use martin::bundle::{
    bundle_names, bundle_show, parse_kv, ply_anchor, referenced_assets, root_ply, setting, show_env_key,
    ShowSource,
};

#[test]
fn show_kind_selects_the_knob() {
    assert_eq!(show_env_key("show"), "MARTIN_SHOW");
    assert_eq!(show_env_key("compose"), "MARTIN_COMPOSE");
    assert_eq!(show_env_key("seq"), "MARTIN_SEQ");
    assert_eq!(show_env_key(""), "MARTIN_SEQ");
}

#[test]
fn anchor_defaults_to_a_placeholder() {
    assert_eq!(ply_anchor(""), "_root");
    assert_eq!(ply_anchor("dog.ply"), "dog.ply");
}

#[test]
fn referenced_assets_collects_every_token_once() {
    let spec = "splat:a.ply+b.ply image:logo.png; mesh:m.obj # splat:c.ply\n\
                glb:x.glb splat:a.ply model: gltf:s.gltf";
    assert_eq!(
        referenced_assets(spec),
        vec!["a.ply", "b.ply", "logo.png", "m.obj", "m.mtl", "x.glb", "s.gltf"]
    );
}

#[test]
fn referenced_assets_edge_cases() {
    assert!(referenced_assets("").is_empty());
    assert_eq!(referenced_assets("splat:+a.ply+"), vec!["a.ply"]);
    assert!(referenced_assets("SPLAT:a.ply text:hello").is_empty());
    assert_eq!(referenced_assets("mesh:m.obj mesh:m.mtl"), vec!["m.obj", "m.mtl"]);
    // the material rides along with its mesh even when it was listed before
    assert_eq!(referenced_assets("mesh:m.mtl mesh:m.obj"), vec!["m.mtl", "m.obj", "m.mtl"]);
    assert_eq!(referenced_assets("#splat:a.ply\nimage:b.png#c"), vec!["b.png"]);
}

#[test]
fn parse_kv_reads_settings_lines() {
    let text = "seq = \"intro.show\"  # the show\n# comment\nlogo='logo.png'\nbad line\n asset_dir=assets \r\nmorph_count = 3\n=x\n";
    let got = parse_kv(text);
    let want: Vec<(String, String)> = [
        ("seq", "intro.show"),
        ("logo", "logo.png"),
        ("asset_dir", "assets"),
        ("morph_count", "3"),
        ("", "x"),
    ]
    .iter()
    .map(|(k, v)| (k.to_string(), v.to_string()))
    .collect();
    assert_eq!(got, want);
}

#[test]
fn parse_kv_strips_double_then_single_quotes() {
    let got = parse_kv("k = \"'mixed\"'\nq=\"\"\"");
    assert_eq!(got[0], ("k".to_string(), "mixed\"".to_string()));
    assert_eq!(got[1], ("q".to_string(), String::new()));
    assert!(parse_kv("").is_empty());
}

fn pairs(v: &[(&str, &str)]) -> Vec<(String, String)> {
    v.iter().map(|(k, x)| (k.to_string(), x.to_string())).collect()
}

#[test]
fn bundle_settings_pick_the_first_and_seq_over_compose() {
    let cfg = pairs(&[("logo", "a.png"), ("compose", "c.show"), ("seq", "s.show"), ("logo", "b.png")]);
    assert_eq!(setting(&cfg, "logo").as_deref(), Some("a.png"));
    assert_eq!(setting(&cfg, "asset_dir"), None);
    assert_eq!(bundle_show(&cfg), Some((ShowSource::Sequence, "s.show".to_string())));
    let only_compose = pairs(&[("compose", "c.show")]);
    assert_eq!(bundle_show(&only_compose), Some((ShowSource::Compose, "c.show".to_string())));
    assert_eq!(bundle_show(&pairs(&[("logo", "x")])), None);
}

#[test]
fn bundle_names_add_the_logo_once_and_find_the_root_splat() {
    assert_eq!(bundle_names("image:logo.png splat:a.ply", "logo.png"), vec!["logo.png", "a.ply"]);
    assert_eq!(bundle_names("mesh:m.obj splat:a.ply", "logo.png"), vec!["m.obj", "m.mtl", "a.ply", "logo.png"]);
    assert_eq!(bundle_names("splat:a.ply", ""), vec!["a.ply"]);
    let names: Vec<String> = bundle_names("mesh:m.obj splat:a.ply+b.ply", "");
    assert_eq!(root_ply(&names), "a.ply");
    assert_eq!(root_ply(&vec!["x.PLY".to_string(), "ply".to_string()]), "");
}
