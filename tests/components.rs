use bos_cli::components::{decode_component, plan_download, ComponentRecord, DownloadPlan};
use bos_cli::error::DocError;

fn record(name: &str, code: &str, metadata: Option<&str>) -> ComponentRecord {
    ComponentRecord {
        name: name.to_string(),
        code: code.to_string(),
        metadata: metadata.map(|m| serde_json::from_str(m).unwrap()),
    }
}

fn strs(v: &[&str]) -> Vec<String> {
    v.iter().map(|s| s.to_string()).collect()
}

#[test]
fn decode_with_metadata() {
    let files = decode_component(&record("a.b.widget", "<div/>", Some("{\"title\":\"T\"}"))).unwrap();
    assert_eq!(files.len(), 2);
    assert_eq!(files[0].path, strs(&["a", "b", "widget.jsx"]));
    assert_eq!(files[0].contents, "<div/>");
    assert_eq!(files[1].path, strs(&["a", "b", "widget.metadata.json"]));
    assert_eq!(files[1].contents, "{\n  \"title\": \"T\"\n}");
}

#[test]
fn decode_without_metadata() {
    let files = decode_component(&record("a.b.widget", "<div/>", None)).unwrap();
    assert_eq!(files.len(), 1);
    assert_eq!(files[0].path, strs(&["a", "b", "widget.jsx"]));
}

#[test]
fn decode_name_without_dot_sits_at_root() {
    let files = decode_component(&record("widget", "x", None)).unwrap();
    assert_eq!(files[0].path, strs(&["widget.jsx"]));
}

#[test]
fn decode_bad_name() {
    assert!(matches!(decode_component(&record("a..b", "x", None)), Err(DocError::InvalidKeyPath)));
}

#[test]
fn empty_account_has_no_components() {
    assert!(matches!(plan_download(Some(Vec::new())), DownloadPlan::NoComponents));
    assert!(matches!(plan_download(None), DownloadPlan::NoComponents));
}

#[test]
fn download_reports_each_component() {
    let plan = plan_download(Some(vec![record("x.", "1", None), record("y", "2", None)]));
    match plan {
        DownloadPlan::Components(v) => {
            assert_eq!(v.len(), 2);
            assert!(matches!(v[0], Err(DocError::InvalidKeyPath)));
            assert_eq!(v[1].as_ref().unwrap()[0].path, strs(&["y.jsx"]));
        }
        DownloadPlan::NoComponents => panic!("expected components"),
    }
}
