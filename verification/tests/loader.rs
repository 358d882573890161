use odin::{load_manufacturers_from, openwrt_root_page};

#[test]
fn loads_manufacturers_with_all_data_present() {
    let html_content = r"
        <div class='table dataaggregation'>
            <table>
                <tbody>
                    <tr />
                    <tr />
                    <tr>
                        <td />
                        <td>Abicom International</td>
                        <td>Freedom CPE</td>
                        <td>Rev 05</td>
                        <td>
                            <a href='/releases/10.03'>10.03</a>
                        </td>
                        <td>
                            <a href='/toh/abicom/freedom_cpe'>freedom_cpe</a>
                        </td>
                        <td />
                    </tr>
                </tbody>
            </table>
        </div>
    ";

    let manufacturers = load_manufacturers_from(html_content);
    assert!(manufacturers.is_ok(), "Error loading html");

    let manufacturers = manufacturers.unwrap();
    assert!(manufacturers.is_some(), "Expected manufacturers, but found none");

    let manufacturers = manufacturers.unwrap();
    assert_eq!(1, manufacturers.len(), "Expected manufacturers, but found none");

    let manufacturer = manufacturers.get(0).unwrap();
    assert_eq!("Abicom International", manufacturer.name());

    let model = manufacturer.models().get(0);
    assert!(model.is_some(), "Expected models, but found none");

    let model = model.unwrap();
    assert_eq!("Freedom CPE", model.name());

    let version = model.versions().get(0);
    assert!(version.is_some(), "Expected versions, but found none");

    let version = version.unwrap();
    assert_eq!("Rev 05", version);

    let openwrt_version = model.openwrt_version();
    assert_eq!("10.03", openwrt_version.version());
    assert_eq!(
        &format!("{}{}", openwrt_root_page(), "/releases/10.03"),
        openwrt_version.link()
    );

    let device_page = model.device_page();
    assert_eq!(
        &format!("{}{}", openwrt_root_page(), "/toh/abicom/freedom_cpe"),
        device_page
    );
}

#[test]
fn loads_multiple_manufacturers() {
    let html_content = r"
        <div class='table dataaggregation'>
            <table>
                <tbody>
                    <tr />
                    <tr />
                    <tr>
                        <td />
                        <td>Abicom International</td>
                        <td>Freedom CPE</td>
                        <td>Rev 05</td>
                        <td>
                            <a href='/releases/10.03'>10.03</a>
                        </td>
                        <td>
                            <a href='/toh/abicom/freedom_cpe'>freedom_cpe</a>
                        </td>
                        <td />
                    </tr>
                    <tr>
                        <td />
                        <td>Actiontec</td>
                        <td>GT701</td>
                        <td>C, D</td>
                        <td>
                            <a href='/releases/10.03.1'>10.03.1</a>
                        </td>
                        <td>
                            <a href='/toh/actiontec/gt701d'>gt701d</a>
                        </td>
                        <td />
                    </tr>
                </tbody>
            </table>
        </div>
    ";

    let manufacturers = load_manufacturers_from(html_content);
    assert!(manufacturers.is_ok(), "Error loading html");

    let manufacturers = manufacturers.unwrap();
    assert!(
        manufacturers.is_some(),
        "Expected multiple manufacturers, but found none"
    );

    let manufacturers = manufacturers.unwrap();
    assert_eq!(
        2,
        manufacturers.len(),
        "Expected multiple manufacturers, but found {}",
        manufacturers.len()
    );
}

#[test]
fn loads_multiple_models() {
    let html_content = r"
        <div class='table dataaggregation'>
            <table>
                <tbody>
                    <tr />
                    <tr />
                    <tr>
                        <td />
                        <td>Abicom International</td>
                        <td>Freedom CPE</td>
                        <td>Rev 05</td>
                        <td>
                            <a href='/releases/10.03'>10.03</a>
                        </td>
                        <td>
                            <a href='/toh/abicom/freedom_cpe'>freedom_cpe</a>
                        </td>
                        <td />
                    </tr>
                    <tr>
                        <td />
                        <td>Abicom International</td>
                        <td>Scorpion SC450</td>
                        <td>Rev 02</td>
                        <td>
                            <a href='/releases/19.07.3'>19.07.3</a>
                        </td>
                        <td>
                            <a href='/toh/abicom/scorpion450'>scorpion450</a>
                        </td>
                        <td />
                    </tr>
                </tbody>
            </table>
        </div>
    ";

    let manufacturers = load_manufacturers_from(html_content);
    assert!(manufacturers.is_ok(), "Error loading html");

    let manufacturers = manufacturers.unwrap();
    assert!(manufacturers.is_some(), "Expected manufacturers, but found none");

    let manufacturers = manufacturers.unwrap();
    assert_eq!(
        1,
        manufacturers.len(),
        "Expected one manufacturer, but found {}",
        manufacturers.len()
    );

    let manufacturer = manufacturers.get(0).unwrap();
    let models = manufacturer.models();
    assert_eq!(
        2,
        models.len(),
        "Expected multiple models, but found {}",
        models.len()
    );
}

#[test]
fn loads_manufacturers_with_model_version_missing() {
    let html_content = r"
        <div class='table dataaggregation'>
            <table>
                <tbody>
                    <tr />
                    <tr />
                    <tr>
                        <td />
                        <td>Abicom International</td>
                        <td>Freedom CPE</td>
                        <td />
                        <td>
                            <a href='/releases/10.03'>10.03</a>
                        </td>
                        <td>
                            <a href='/toh/abicom/freedom_cpe'>freedom_cpe</a>
                        </td>
                        <td />
                    </tr>
                </tbody>
            </table>
        </div>
    ";

    let manufacturers = load_manufacturers_from(html_content);
    assert!(manufacturers.is_ok(), "Error loading html");

    let manufacturers = manufacturers.unwrap();
    assert!(manufacturers.is_some(), "Expected manufacturers, but found none");

    let manufacturers = manufacturers.unwrap();
    assert_eq!(1, manufacturers.len(), "Expected manufacturers, but found none");
}

#[test]
fn loads_manufacturers_with_openwrt_version_missing() {
    let html_content = r"
        <div class='table dataaggregation'>
            <table>
                <tbody>
                    <tr />
                    <tr />
                    <tr>
                        <td />
                        <td>Abicom International</td>
                        <td>Freedom CPE</td>
                        <td>Rev 05</td>
                        <td />
                        <td>
                            <a href='/toh/abicom/freedom_cpe'>freedom_cpe</a>
                        </td>
                        <td />
                    </tr>
                </tbody>
            </table>
        </div>
    ";

    let manufacturers = load_manufacturers_from(html_content);
    assert!(manufacturers.is_ok(), "Error loading html");

    let manufacturers = manufacturers.unwrap();
    assert!(manufacturers.is_some(), "Expected manufacturers, but found none");

    let manufacturers = manufacturers.unwrap();
    assert_eq!(1, manufacturers.len(), "Expected manufacturers, but found none");
}

#[test]
fn loads_manufacturers_with_device_page_missing() {
    let html_content = r"
        <div class='table dataaggregation'>
            <table>
                <tbody>
                    <tr />
                    <tr />
                    <tr>
                        <td />
                        <td>Abicom International</td>
                        <td>Freedom CPE</td>
                        <td>Rev 05</td>
                        <td>
                            <a href='/releases/10.03'>10.03</a>
                        </td>
                        <td />
                        <td />
                    </tr>
                </tbody>
            </table>
        </div>
    ";

    let manufacturers = load_manufacturers_from(html_content);
    assert!(manufacturers.is_ok(), "Error loading html");

    let manufacturers = manufacturers.unwrap();
    assert!(manufacturers.is_some(), "Expected manufacturers, but found none");

    let manufacturers = manufacturers.unwrap();
    assert_eq!(1, manufacturers.len(), "Expected manufacturers, but found none");
}

#[test]
fn loads_manufacturers_with_all_data_missing() {
    let html_content = r"
        <div class='table dataaggregation'>
            <table>
                <tbody>
                    <tr />
                    <tr />
                    <tr>
                        <td />
                        <td />
                        <td />
                        <td />
                        <td />
                        <td />
                        <td />
                    </tr>
                </tbody>
            </table>
        </div>
    ";

    let manufacturers = load_manufacturers_from(html_content);
    assert!(manufacturers.is_ok(), "Error loading html");

    let manufacturers = manufacturers.unwrap();
    assert!(manufacturers.is_some(), "Expected manufacturers, but found none");

    let manufacturers = manufacturers.unwrap();
    assert_eq!(1, manufacturers.len(), "Expected manufacturers, but found none");
}

#[test]
fn doesnt_load_manufacturers_with_malformed_html() {
    let html_content = r"
        <div class='table dataaggregation
            <table>
                <tbody>
                    <tr />
                    <tr />
                    <tr>
                        <td />
                        <td>Abicom International</td>
                        <td>Freedom CPE</td>
                        <td>Rev 05</td>
                        <td>
                            <a href='/releases/10.03'>10.03</a>
                        </td>
                        <td>
                            <a href='/toh/abicom/freedom_cpe'>freedom_cpe</a>
                        </td>
                        <td />
                    </tr>
                </tbody>
            </table>
        </div>
    ";

    let manufacturers = load_manufacturers_from(html_content);
    assert!(manufacturers.is_ok(), "Error loading html");

    let manufacturers = manufacturers.unwrap();
    assert!(manufacturers.is_none(), "Expected no manufacturers, but found one");
}
