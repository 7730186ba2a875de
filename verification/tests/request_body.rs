use hpr_skygate::request_body::{rate_limit_request, request_id};

#[test]
fn request_id_reads_the_id_string() {
    assert_eq!(request_id("{\"id\":\"10.0.0.7\"}"), Some("10.0.0.7".to_string()));
    assert_eq!(request_id("{\"id\":7}"), None);
    assert_eq!(request_id("{\"other\":\"x\"}"), None);
    assert_eq!(request_id("not json"), None);
}

#[test]
fn rate_limit_request_defaults() {
    assert_eq!(rate_limit_request("{\"id\":\"a1\",\"limit\":900}"), Some(("a1".to_string(), 900)));
    assert_eq!(rate_limit_request("{\"id\":\"a1\"}"), Some(("a1".to_string(), 5420)));
    assert_eq!(rate_limit_request("{}"), Some((String::new(), 5420)));
    assert_eq!(rate_limit_request("{\"limit\":-3}"), Some((String::new(), 5420)));
    assert_eq!(rate_limit_request("{bad"), None);
}
