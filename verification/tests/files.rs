use vmm_sandboxer::sandbox::files::parse_dnsoptions;

fn strings(v: &[&str]) -> Vec<String> {
    v.iter().map(|s| s.to_string()).collect()
}

const EXPECTED: &str = "search server0.google.com server1.google.com server2.google.com server3.google.com server4.google.com server5.google.com server6.google.com
nameserver 8.8.8.8
nameserver server.google.com
options timeout:1
";

fn check_non_empty() {
    let servers = strings(&["8.8.8.8", "server.google.com"]);
    let searches = strings(&[
        "server0.google.com",
        "server1.google.com",
        "server2.google.com",
        "server3.google.com",
        "server4.google.com",
        "server5.google.com",
        "server6.google.com",
    ]);
    let options = strings(&["timeout:1"]);
    let resolv_content = parse_dnsoptions(&servers, &searches, &options);
    assert!(!resolv_content.is_empty());
    assert_eq!(resolv_content, EXPECTED)
}

#[test]
fn sandbox_test_parse_empty_dns_option() {
    let resolv_content = parse_dnsoptions(&vec![], &vec![], &vec![]);
    assert!(resolv_content.is_empty())
}

#[test]
fn sandbox_test_parse_non_empty_dns_option() {
    check_non_empty();
}

#[test]
fn mod_test_parse_empty_dns_option() {
    let resolv_content = parse_dnsoptions(&vec![], &vec![], &vec![]);
    assert!(resolv_content.is_empty())
}

#[test]
fn mod_test_parse_non_empty_dns_option() {
    check_non_empty();
}
