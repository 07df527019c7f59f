use alt_recipes::catalog::Catalog;

#[test]
fn interning_reuses_known_names() {
    let mut c = Catalog::new();
    let a = c.intern("Wire".to_string());
    let b = c.intern("Screw".to_string());
    let a2 = c.intern("Wire".to_string());
    assert_eq!((a, b, a2), (0, 1, 0));
    assert_eq!(c.n_assets(), 2);
    assert_eq!(c.locator(a), None);
    assert_eq!(c.asset_name(b), "Screw");
}

#[test]
fn later_registration_replaces_the_locator() {
    let mut c = Catalog::new();
    let k = c.register_asset("Wire".to_string(), "old.png".to_string());
    let k2 = c.register_asset("Wire".to_string(), "Wire.png".to_string());
    assert_eq!(k, k2);
    assert_eq!(c.n_assets(), 1);
    assert_eq!(c.locator(k).map(|s| s.as_str()), Some("Wire.png"));
}

#[test]
fn key_lookup() {
    let mut c = Catalog::new();
    c.register_asset("Iron Ore".to_string(), "Iron_Ore.png".to_string());
    c.register_asset("Copper Ore".to_string(), "Copper_Ore.png".to_string());
    assert_eq!(c.key_of(&"Copper Ore".to_string()), Some(1));
    assert_eq!(c.key_of(&"Coal".to_string()), None);
}

#[test]
fn recipe_names_become_keys() {
    let mut c = Catalog::new();
    c.register_asset("Iron Ingot".to_string(), "Iron_Ingot.png".to_string());
    let input = vec![("Iron Ingot".to_string(), 15_000u64), ("Coal".to_string(), 7_500u64)];
    let i = c.add_recipe("Solid Steel Ingot".to_string(), "Steel Ingot".to_string(), &input, 40_000);
    assert_eq!(i, 0);
    assert_eq!(c.n_recipes(), 1);
    assert_eq!(c.n_assets(), 3);
    let r = c.recipe(0);
    assert_eq!(r.name, "Solid Steel Ingot");
    assert_eq!(r.product.name, "Steel Ingot");
    assert_eq!(r.product.key, 1);
    assert_eq!(r.input.len(), 2);
    assert_eq!(r.input[0].name.key, 0);
    assert_eq!(r.input[0].nb_milli, 15_000);
    assert_eq!(r.input[1].name.name, "Coal");
    assert_eq!(r.input[1].name.key, 2);
    assert_eq!(r.rate_milli, 40_000);
    assert_eq!(c.locator(2), None);
}

#[test]
fn asset_keys_put_the_product_first() {
    let mut c = Catalog::new();
    let input = vec![("A".to_string(), 1u64), ("B".to_string(), 2u64), ("A".to_string(), 3u64)];
    c.add_recipe("R".to_string(), "P".to_string(), &input, 1);
    assert_eq!(c.recipe(0).asset_keys(), vec![0, 1, 2, 1]);
}
