use insight::utils::parse_rtsp_url;

#[test]
fn test_parse_rtsp_url_success() {
    assert_eq!(
        parse_rtsp_url(&String::from("rtsp://test:543")).unwrap(),
        (String::from("test"), String::from("543"))
    );
}

#[test]
fn test_parse_rtsp_url_default_port() {
    assert_eq!(
        parse_rtsp_url(&String::from("rtsp://test")).unwrap(),
        (String::from("test"), String::from("554"))
    );
}

#[test]
fn test_parse_rtsp_url_longer_url() {
    assert_eq!(
        parse_rtsp_url(&String::from("rtsp://test/whatever/blah/blah/blah")).unwrap(),
        (String::from("test"), String::from("554"))
    );
}

#[test]
fn test_parse_rtsp_url_longer_url_with_port() {
    assert_eq!(
        parse_rtsp_url(&String::from("rtsp://test:554/whatever/blah/blah/blah")).unwrap(),
        (String::from("test"), String::from("554"))
    );
}

#[test]
fn parse_rtsp_url_keeps_later_colons_in_port() {
    assert_eq!(
        parse_rtsp_url(&String::from("rtsp://host:80:90/x")).unwrap(),
        (String::from("host"), String::from("80:90"))
    );
}

#[test]
fn parse_rtsp_url_with_empty_port() {
    assert_eq!(
        parse_rtsp_url(&String::from("rtsp://host:/x")).unwrap(),
        (String::from("host"), String::from(""))
    );
}

#[test]
fn parse_rtsp_url_ip_address() {
    assert_eq!(
        parse_rtsp_url(&String::from("rtsp://127.0.0.1:8554")).unwrap(),
        (String::from("127.0.0.1"), String::from("8554"))
    );
}

#[test]
fn parse_rtsp_url_non_ascii_path() {
    assert_eq!(
        parse_rtsp_url(&String::from("rtsp://caméra:7070/vidéo")).unwrap(),
        (String::from("caméra"), String::from("7070"))
    );
}
