use odin::table::absolute_url;
use odin::text::{split_trim_commas, trim};
use odin::{
    extract_catalog, find_brand, load_manufacturers_from, openwrt_root_page, Anchor, Cell,
    ExtractError, Manufacturer, Model, Version,
};

fn empty_cell() -> Cell {
    Cell { text: None, anchor: None }
}

fn text_cell(text: &str) -> Cell {
    Cell {
        text: Some(text.to_string()),
        anchor: None,
    }
}

fn anchor_cell(text: &str, href: Option<&str>) -> Cell {
    Cell {
        text: None,
        anchor: Some(Anchor {
            text: text.to_string(),
            href: href.map(|h| h.to_string()),
        }),
    }
}

fn data_row(brand: &str, model: &str, hardware: Option<&str>, release: &str, page: &str) -> Vec<Cell> {
    vec![
        empty_cell(),
        text_cell(brand),
        text_cell(model),
        match hardware {
            Some(h) => text_cell(h),
            None => empty_cell(),
        },
        anchor_cell(release, Some(&format!("/releases/{}", release))),
        anchor_cell(model, Some(page)),
        empty_cell(),
    ]
}

#[test]
fn root_page_is_the_fixed_origin() {
    assert_eq!("https://openwrt.org", openwrt_root_page());
}

#[test]
fn absolute_url_prefixes_the_root_exactly() {
    assert_eq!("https://openwrt.org/toh/x/y", absolute_url("/toh/x/y"));
    assert_eq!("https://openwrt.org", absolute_url(""));
}

#[test]
fn trim_removes_surrounding_whitespace_only() {
    assert_eq!("Rev 05", trim("  Rev 05 \t"));
    assert_eq!("", trim(""));
    assert_eq!("", trim(" \n "));
    assert_eq!("a  b", trim("a  b"));
}

#[test]
fn split_trim_commas_keeps_order_and_empty_segments() {
    let parts = split_trim_commas("C, D");
    assert_eq!(vec!["C".to_string(), "D".to_string()], parts);

    let parts = split_trim_commas("");
    assert_eq!(vec!["".to_string()], parts);

    let parts = split_trim_commas(" a ,, b ");
    assert_eq!(vec!["a".to_string(), "".to_string(), "b".to_string()], parts);
}

#[test]
fn groups_rows_by_brand_preserving_first_seen_order() {
    let rows = vec![
        Vec::new(),
        Vec::new(),
        data_row("Abicom International", "Freedom CPE", Some("Rev 05"), "10.03", "/toh/abicom/freedom_cpe"),
        data_row("Actiontec", "GT701", Some("C, D"), "10.03.1", "/toh/actiontec/gt701d"),
        data_row("Abicom International", "Scorpion SC450", Some("Rev 02"), "19.07.3", "/toh/abicom/scorpion450"),
    ];
    let catalog = extract_catalog(&rows).unwrap().unwrap();

    assert_eq!(2, catalog.len());
    assert_eq!("Abicom International", catalog[0].name());
    assert_eq!("Actiontec", catalog[1].name());
    assert_eq!(2, catalog[0].count());
    assert_eq!(1, catalog[1].count());
    assert_eq!("Freedom CPE", catalog[0].models()[0].name());
    assert_eq!("Scorpion SC450", catalog[0].models()[1].name());
    assert_eq!(vec!["C".to_string(), "D".to_string()], *catalog[1].models()[0].versions());
    assert_eq!(
        "https://openwrt.org/releases/10.03",
        catalog[0].models()[0].openwrt_version().link()
    );
    assert_eq!(
        "https://openwrt.org/toh/actiontec/gt701d",
        catalog[1].models()[0].device_page()
    );
}

#[test]
fn anchor_without_target_fails_the_extraction_run() {
    let mut row = data_row("Brand", "Model", Some("V1"), "19.07", "/toh/brand/model");
    row[4] = anchor_cell("19.07", None);
    let rows = vec![Vec::new(), Vec::new(), row];
    let result = extract_catalog(&rows);
    assert!(matches!(result, Err(ExtractError::MissingAnchorTarget)));

    let mut row = data_row("Brand", "Model", Some("V1"), "19.07", "/toh/brand/model");
    row[5] = anchor_cell("model", None);
    let rows = vec![Vec::new(), Vec::new(), row];
    let result = extract_catalog(&rows);
    assert!(matches!(result, Err(ExtractError::MissingAnchorTarget)));
}

#[test]
fn header_only_run_yields_the_no_data_result() {
    let rows: Vec<Vec<Cell>> = vec![Vec::new(), Vec::new()];
    assert!(matches!(extract_catalog(&rows), Ok(None)));

    let rows: Vec<Vec<Cell>> = Vec::new();
    assert!(matches!(extract_catalog(&rows), Ok(None)));
}

#[test]
fn empty_hardware_cell_gives_a_model_without_versions() {
    let rows = vec![
        Vec::new(),
        Vec::new(),
        data_row("Brand", "Model", None, "19.07", "/toh/brand/model"),
    ];
    let catalog = extract_catalog(&rows).unwrap().unwrap();
    assert_eq!(1, catalog.len());
    assert_eq!(1, catalog[0].count());
    assert_eq!(0, catalog[0].models()[0].versions().len());
    assert_eq!("Model", catalog[0].models()[0].name());
}

#[test]
fn truncated_row_keeps_defaults_for_missing_cells() {
    let rows = vec![
        Vec::new(),
        Vec::new(),
        vec![empty_cell(), text_cell("Brand"), text_cell("Model")],
    ];
    let catalog = extract_catalog(&rows).unwrap().unwrap();
    assert_eq!(1, catalog.len());
    let model = &catalog[0].models()[0];
    assert_eq!("Model", model.name());
    assert_eq!(0, model.versions().len());
    assert_eq!("", model.openwrt_version().version());
    assert_eq!("", model.openwrt_version().link());
    assert_eq!("", model.device_page());
}

#[test]
fn header_only_document_yields_the_no_data_result() {
    let html_content = "<div class='table dataaggregation'><table><tbody><tr></tr><tr></tr></tbody></table></div>";
    let result = load_manufacturers_from(html_content);
    assert!(matches!(result, Ok(None)));
}

#[test]
fn compact_document_with_empty_hardware_cell_keeps_the_model() {
    let html_content = "<div class='table dataaggregation'><table><tbody><tr></tr><tr></tr>\
        <tr><td></td><td>Brand</td><td>Model</td><td></td>\
        <td><a href='/releases/19.07'>19.07</a></td>\
        <td><a href='/toh/brand/model'>model</a></td><td></td></tr>\
        </tbody></table></div>";
    let catalog = load_manufacturers_from(html_content).unwrap().unwrap();
    assert_eq!(1, catalog.len());
    assert_eq!("Brand", catalog[0].name());
    assert_eq!(1, catalog[0].count());
    let model = &catalog[0].models()[0];
    assert_eq!(0, model.versions().len());
    assert_eq!("19.07", model.openwrt_version().version());
    assert_eq!("https://openwrt.org/releases/19.07", model.openwrt_version().link());
    assert_eq!("https://openwrt.org/toh/brand/model", model.device_page());
}

#[test]
fn find_brand_matches_case_insensitively() {
    let manufacturers = vec![
        Manufacturer::new("TP-Link".to_string(), Vec::new()),
        Manufacturer::new("Actiontec".to_string(), Vec::new()),
    ];
    assert_eq!(Some(0), find_brand(&manufacturers, "tp-link"));
    assert_eq!(Some(1), find_brand(&manufacturers, "ACTIONTEC"));
    assert_eq!(None, find_brand(&manufacturers, "netgear"));
}

#[test]
fn find_brand_returns_the_first_match() {
    let manufacturers = vec![
        Manufacturer::new("Brand".to_string(), Vec::new()),
        Manufacturer::new("BRAND".to_string(), Vec::new()),
    ];
    assert_eq!(Some(0), find_brand(&manufacturers, "brand"));
}

#[test]
fn loading_the_same_text_twice_gives_the_same_catalog() {
    let html_content = "<div class='table dataaggregation'><table><tbody><tr></tr><tr></tr>\
        <tr><td></td><td>Brand</td><td>Model</td><td>V1</td>\
        <td><a href='/releases/19.07'>19.07</a></td>\
        <td><a href='/toh/brand/model'>model</a></td><td></td></tr>\
        </tbody></table></div>";
    let first = load_manufacturers_from(html_content).unwrap().unwrap();
    let second = load_manufacturers_from(html_content).unwrap().unwrap();
    assert_eq!(first.len(), second.len());
    assert_eq!(first[0].name(), second[0].name());
    assert_eq!(first[0].count(), second[0].count());
    assert_eq!(
        first[0].models()[0].device_page(),
        second[0].models()[0].device_page()
    );
}

#[test]
fn entity_constructors_and_getters_round_trip() {
    let version = Version::new("19.07".to_string(), "https://openwrt.org/releases/19.07".to_string());
    assert_eq!("19.07", version.version());
    assert_eq!("https://openwrt.org/releases/19.07", version.link());

    let model = Model::new(
        "WR841ND".to_string(),
        vec!["V10".to_string(), "V11".to_string()],
        version,
        "https://openwrt.org/toh/tp-link/wr841nd".to_string(),
    );
    assert_eq!("WR841ND", model.name());
    assert_eq!(vec!["V10".to_string(), "V11".to_string()], *model.versions());
    assert_eq!("https://openwrt.org/toh/tp-link/wr841nd", model.device_page());

    let manufacturer = Manufacturer::new("TP-Link".to_string(), vec![model]);
    assert_eq!("TP-Link", manufacturer.name());
    assert_eq!(1, manufacturer.count());
    assert_eq!("WR841ND", manufacturer.models()[0].name());
}
