use fldemos::hudson::{csv_rows, Job, Param, Siege};

fn args(v: &[&str]) -> Vec<String> {
    v.iter().map(|s| s.to_string()).collect()
}

#[test]
fn parameters_need_two_arguments() {
    assert_eq!(Param::build(args(&["app"])).err(), Some("not enough arguments"));
    let p = Param::build(args(&["app", "siege", "/tmp/x.json"])).unwrap();
    assert_eq!(p.path(), "/tmp/x.json");
    assert_eq!(p.job(), Job::Siege);
}

#[test]
fn jobs_by_name() {
    let job = |name: &str| Param::build(args(&["app", name, "p"])).unwrap().job();
    assert_eq!(job("csv"), Job::Csv);
    assert_eq!(job("virsh"), Job::Virsh);
    assert_eq!(job("Siege"), Job::Nothing);
    assert_eq!(job(""), Job::Nothing);
}

#[test]
fn load_test_addresses() {
    let s = Siege {
        proto: "https".to_string(),
        port: 8080,
        concurrent: 5,
        targets: vec!["node1".to_string()],
        endpoints: vec!["/".to_string(), "/health".to_string()],
    };
    assert_eq!(s.addresses("node1"), vec!["https://node1:8080/", "https://node1:8080/health"]);
}

#[test]
fn csv_rows_are_read_without_a_header() {
    let rows = csv_rows("name,size\nalpha,1\n\"b,c\",22\n").expect("rows");
    assert_eq!(
        rows,
        vec![
            vec!["name".to_string(), "size".to_string()],
            vec!["alpha".to_string(), "1".to_string()],
            vec!["b,c".to_string(), "22".to_string()],
        ]
    );
}

#[test]
fn csv_rows_of_unequal_length_are_refused() {
    assert_eq!(csv_rows("a,b,c\n1,2\n"), None);
}

#[test]
fn csv_rows_of_empty_text_are_empty() {
    assert_eq!(csv_rows(""), Some(Vec::new()));
}
