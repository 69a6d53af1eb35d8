use minic::common::StringRef;

#[test]
fn test_string_ref() {
    let base = "0123456789";
    {
        let sr = StringRef::new(base).substr(3..7);
        assert_eq!(sr.as_str(), "3456");
    }
    {
        let sr = StringRef::new(base).substr(3..);
        assert_eq!(sr.as_str(), "3456789");
    }
    {
        let sr = StringRef::new(base).substr(..7);
        assert_eq!(sr.as_str(), "0123456");
    }
}
