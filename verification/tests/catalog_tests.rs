use nix_nit::catalog::{FlakeTemplate, apply_flake_name, item_of, keep_named};

fn ft(name: &str, uri: &str, flake_name: Option<&str>) -> FlakeTemplate {
    FlakeTemplate {
        template_name: String::from(name),
        flake_uri: String::from(uri),
        flake_name: flake_name.map(String::from),
        description: String::from("a template"),
    }
}

#[test]
fn keep_named_filters_and_keeps_order() {
    let list = vec![
        ft("default", "github:NixOS/templates", None),
        ft("rust", "github:NixOS/templates", None),
        ft("haskell", "github:NixOS/templates", None),
    ];
    let allowed = vec![String::from("haskell"), String::from("default")];
    let kept = keep_named(list, &allowed);
    assert_eq!(kept.len(), 2);
    assert_eq!(kept[0].template_name, "default");
    assert_eq!(kept[1].template_name, "haskell");
}

#[test]
fn keep_named_with_no_match_is_empty() {
    let list = vec![ft("default", "github:NixOS/templates", None)];
    let allowed = vec![String::from("zig")];
    assert!(keep_named(list, &allowed).is_empty());
}

#[test]
fn apply_flake_name_renames_every_template() {
    let list = vec![
        ft("default", "github:NixOS/templates", None),
        ft("rust", "github:NixOS/templates", Some("old")),
    ];
    let named = apply_flake_name(list, &String::from("templates"));
    assert_eq!(named.len(), 2);
    for t in &named {
        assert_eq!(t.flake_name.as_deref(), Some("templates"));
    }
    assert_eq!(named[0].template_name, "default");
    assert_eq!(named[1].flake_uri, "github:NixOS/templates");
}

#[test]
fn adopt_stamps_listed_name_and_uri() {
    let t = ft("whatever", "", Some("mine"));
    let adopted = nix_nit::catalog::adopt(
        t,
        &String::from("default"),
        &String::from("github:NixOS/templates"),
    );
    assert_eq!(adopted.template_name, "default");
    assert_eq!(adopted.flake_uri, "github:NixOS/templates");
    assert_eq!(adopted.flake_name.as_deref(), Some("mine"));
    assert_eq!(adopted.description, "a template");
}

#[test]
fn item_projections_without_flake_name() {
    let item = item_of(&ft("rust", "github:NixOS/templates", None));
    assert_eq!(item.identity, "github:NixOS/templates-rust");
    assert_eq!(item.display, "github:NixOS/templates#rust");
}

#[test]
fn item_projections_with_flake_name() {
    let item = item_of(&ft("rust", "github:NixOS/templates", Some("templates")));
    assert_eq!(item.identity, "github:NixOS/templates-rust");
    assert_eq!(item.display, "templates github:NixOS/templates#rust");
}
