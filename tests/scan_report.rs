use fetter::scan_report::Package;
use fetter::scan_report::RowableContext;
use fetter::scan_report::ScanRecord;
use fetter::scan_report::ScanReport;

fn site_list() -> Vec<String> {
    vec!["/usr/lib/python3/site-packages".to_string()]
}

#[test]
fn test_to_file_a() {
    let packages = vec![
        (Package::new("numpy", "1.19.3"), site_list()),
        (Package::new("static-frame", "2.13.0"), site_list()),
        (Package::new("flask", "1.2"), site_list()),
        (Package::new("packaging", "24.1"), site_list()),
    ];
    let sr1 = ScanReport::from_package_to_sites(&packages);
    let lines = sr1.to_delimited_lines("|");
    let mut lines = lines.into_iter();

    assert_eq!(lines.next().unwrap(), "Package|Site");
    assert_eq!(lines.next().unwrap(), "flask-1.2|/usr/lib/python3/site-packages");
    assert_eq!(lines.next().unwrap(), "numpy-1.19.3|/usr/lib/python3/site-packages");
    assert_eq!(lines.next().unwrap(), "packaging-24.1|/usr/lib/python3/site-packages");
    assert_eq!(lines.next().unwrap(), "static-frame-2.13.0|/usr/lib/python3/site-packages");
    assert!(lines.next().is_none());
}

#[test]
fn from_packages_reports_a_subset_in_order() {
    let map = vec![
        (Package::new("numpy", "1.19.3"), vec!["/a".to_string()]),
        (Package::new("flask", "1.2"), vec!["/b".to_string(), "/c".to_string()]),
        (Package::new("zlib", "1"), vec!["/d".to_string()]),
    ];
    let subset = vec![Package::new("zlib", "1"), Package::new("flask", "1.2")];
    let report = ScanReport::from_packages(&subset, &map);
    assert_eq!(
        report.to_delimited_lines(","),
        vec!["Package,Site", "flask-1.2,/b", "flask-1.2,/c", "zlib-1,/d"]
    );
    assert_eq!(report.get_records().len(), 2);
    assert_eq!(report.get_header(), vec!["Package", "Site"]);
}

#[test]
fn empty_report_has_only_a_header() {
    let report = ScanReport::from_package_to_sites(&Vec::new());
    assert_eq!(report.to_delimited_lines("|"), vec!["Package|Site"]);
}

#[test]
fn rows_on_a_terminal_name_the_package_once() {
    let rec = ScanRecord::new(Package::new("pip", "24.0"), vec!["/x".to_string(), "/y".to_string()]);
    assert_eq!(rec.to_rows(RowableContext::Tty), vec![vec!["pip-24.0", "/x"], vec!["", "/y"]]);
    assert_eq!(
        rec.to_rows(RowableContext::Delimited),
        vec![vec!["pip-24.0", "/x"], vec!["pip-24.0", "/y"]]
    );
}
