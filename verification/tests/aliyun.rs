use std::collections::HashMap;

use sms::text::percent_encode;
use sms::Aliyun;

fn owned_pairs(pairs: &[(&str, &str)]) -> Vec<(String, String)> {
    pairs.iter().map(|p| (p.0.to_string(), p.1.to_string())).collect()
}

fn query_param<'a>(url: &'a str, key: &str) -> Option<&'a str> {
    let query = url.splitn(2, '?').nth(1)?;
    let prefix = format!("{}=", key);
    query.split('&').find(|p| p.starts_with(&prefix)).map(|p| &p[prefix.len()..])
}

#[test]
fn send_sms() {
    let aliyun = Aliyun::new("xxxx", "xxxx");
    let code = format!(r#"{{"code":"{}","product":"EchoLi"}}"#, 1234);
    let url = aliyun.send_sms_url("18888888888", "登录验证", "SMS_123456", code.as_str());
    assert!(url.starts_with("https://dysmsapi.aliyuncs.com/?"));
    assert!(query_param(&url, "Signature").is_some());
    // mock transport: the provider accepts the request and replies with a
    // flat JSON object, which the caller receives unchanged
    let body = r#"{"Code":"OK","Message":"OK","RequestId":"abc"}"#;
    let resp: HashMap<String, String> = serde_json::from_str(body).unwrap();
    assert_eq!(resp.get(&"Code".to_string()), Some(&"OK".to_string()));
}

#[test]
fn encoding_deviations() {
    assert_eq!(percent_encode(" "), "%20");
    assert_eq!(percent_encode("*"), "%2A");
    assert_eq!(percent_encode("~"), "~");
    assert_eq!(percent_encode("+"), "%2B");
    assert_eq!(percent_encode("a1-_.~"), "a1-_.~");
    assert_eq!(percent_encode("{\"code\":\"1234\"}"), "%7B%22code%22%3A%221234%22%7D");
    assert_eq!(percent_encode("登录验证"), "%E7%99%BB%E5%BD%95%E9%AA%8C%E8%AF%81");
}

#[test]
fn encoder_matches_reference() {
    let samples = ["", "abc", "a b+c", "*~-_.", "登录验证", "{\"k\":\"v\"}", "100%"];
    for s in samples {
        assert_eq!(percent_encode(s), urlencoding::encode(s).into_owned());
    }
}

#[test]
fn sort_order() {
    let aliyun = Aliyun::new("id", "secret");
    let params = owned_pairs(&[("b", "2"), ("a", "1"), ("A", "3")]);
    assert_eq!(aliyun.canonicalize_query_string(&params), "A=3&a=1&b=2");
}

#[test]
fn canonicalization_deterministic() {
    let aliyun = Aliyun::new("id", "secret");
    let params = owned_pairs(&[
        ("Action", "SendSms"),
        ("Timestamp", "2017-07-12T02:42:19Z"),
        ("SignatureNonce", "45e25e9b21c6d2b1"),
        ("PhoneNumbers", "15300000001"),
    ]);
    let first = aliyun.canonicalize_query_string(&params);
    let second = aliyun.canonicalize_query_string(&params);
    assert_eq!(first, second);
    assert_eq!(
        first,
        "Action=SendSms&PhoneNumbers=15300000001&SignatureNonce=45e25e9b21c6d2b1&Timestamp=2017-07-12T02%3A42%3A19Z"
    );
}

#[test]
fn canonicalization_order_independent() {
    let aliyun = Aliyun::new("id", "secret");
    let p1 = owned_pairs(&[("b", "2"), ("a", "1"), ("A", "3")]);
    let p2 = owned_pairs(&[("A", "3"), ("b", "2"), ("a", "1")]);
    assert_eq!(aliyun.canonicalize_query_string(&p1), aliyun.canonicalize_query_string(&p2));
}

#[test]
fn canonicalization_of_nothing() {
    let aliyun = Aliyun::new("id", "secret");
    assert_eq!(aliyun.canonicalize_query_string(&Vec::new()), "");
    let params = owned_pairs(&[("a", "")]);
    assert_eq!(aliyun.canonicalize_query_string(&params), "a=");
}

#[test]
fn signature_reproducible() {
    let aliyun = Aliyun::new("id", "secret");
    let sig = aliyun.signature("GET&%2F&test".as_bytes());
    assert_eq!(sig, "yvVhGCuf2HW2eFhCh446HVD3GkY=");
}

#[test]
fn signed_url_pinned() {
    let aliyun = Aliyun::new("testid", "testsecret");
    let url = aliyun.signed_request_url(
        "15300000001",
        "阿里云短信测试专用",
        "SMS_71390007",
        "{\"customer\":\"test\"}",
        "2017-07-12T02:42:19Z",
        "45e25e9b21c6d2b1",
    );
    assert_eq!(
        url,
        "https://dysmsapi.aliyuncs.com/?AccessKeyId=testid&Action=SendSms&Format=json&PhoneNumbers=15300000001&RegionId=cn-hangzhou&SignName=%E9%98%BF%E9%87%8C%E4%BA%91%E7%9F%AD%E4%BF%A1%E6%B5%8B%E8%AF%95%E4%B8%93%E7%94%A8&SignatureMethod=HMAC-SHA1&SignatureNonce=45e25e9b21c6d2b1&SignatureVersion=1.0&TemplateCode=SMS_71390007&TemplateParam=%7B%22customer%22%3A%22test%22%7D&Timestamp=2017-07-12T02%3A42%3A19Z&Version=2017-05-25&Signature=mjFx4V7CjCkp8olgRcLNOzLpc1g%3D"
    );
}

#[test]
fn business_params_round_trip() {
    let aliyun = Aliyun::new("testid", "testsecret");
    let url = aliyun.signed_request_url(
        "15300000001",
        "阿里云短信测试专用",
        "SMS_71390007",
        "{\"customer\":\"test\"}",
        "2017-07-12T02:42:19Z",
        "45e25e9b21c6d2b1",
    );
    assert_eq!(url.matches("PhoneNumbers=15300000001").count(), 1);
    assert_eq!(
        url.matches("SignName=%E9%98%BF%E9%87%8C%E4%BA%91%E7%9F%AD%E4%BF%A1%E6%B5%8B%E8%AF%95%E4%B8%93%E7%94%A8")
            .count(),
        1
    );
    assert_eq!(url.matches("TemplateCode=SMS_71390007").count(), 1);
    assert_eq!(url.matches("TemplateParam=%7B%22customer%22%3A%22test%22%7D").count(), 1);
}

#[test]
fn nonce_and_signature_fresh() {
    let aliyun = Aliyun::new("id", "secret");
    let first = aliyun.send_sms_url("18888888888", "登录验证", "SMS_123456", "{}");
    let second = aliyun.send_sms_url("18888888888", "登录验证", "SMS_123456", "{}");
    let nonce1 = query_param(&first, "SignatureNonce").unwrap();
    let nonce2 = query_param(&second, "SignatureNonce").unwrap();
    assert_ne!(nonce1, nonce2);
    let sig1 = query_param(&first, "Signature").unwrap();
    let sig2 = query_param(&second, "Signature").unwrap();
    assert_ne!(sig1, sig2);
}
