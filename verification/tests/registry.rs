use nexa::registry::{bearer_token, html_escape, valid_package_name};

#[test]
fn package_names() {
    assert!(valid_package_name("nexa-ui"));
    assert!(valid_package_name("a.b_c-1"));
    assert!(!valid_package_name("Ünïcode"));
    assert!(!valid_package_name("café"));
    assert!(valid_package_name("0day"));
    assert!(valid_package_name("A.B"));
    assert!(!valid_package_name(""));
    assert!(!valid_package_name("-leading"));
    assert!(!valid_package_name(".hidden"));
    assert!(!valid_package_name("a..b"));
    assert!(!valid_package_name("a/b"));
    assert!(!valid_package_name("with space"));
    assert!(valid_package_name(&"a".repeat(214)));
    assert!(!valid_package_name(&"a".repeat(215)));
    // only ASCII letters and digits count as alphanumeric
    assert!(!valid_package_name(&"é".repeat(107)));
    assert!(!valid_package_name("x\u{0663}"));
}

#[test]
fn html_escaping() {
    assert_eq!(html_escape("a < b && c > \"d\""), "a &lt; b &amp;&amp; c &gt; &quot;d&quot;");
    assert_eq!(html_escape("&lt;"), "&amp;lt;");
    assert_eq!(html_escape("plain"), "plain");
    assert_eq!(html_escape(""), "");
}

#[test]
fn bearer_tokens() {
    assert_eq!(bearer_token("Bearer abc.def"), Some("abc.def".to_string()));
    assert_eq!(bearer_token("Bearer "), Some(String::new()));
    assert_eq!(bearer_token("bearer abc"), None);
    assert_eq!(bearer_token("Basic xyz"), None);
    assert_eq!(bearer_token("Bearer"), None);
}
