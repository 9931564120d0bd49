use den_scan::matcher::{Find, Matcher};

#[test]
fn matcher_call() {
    assert_eq!(
        Matcher::find("//@den::mymacro!".as_bytes()),
        Find::Call("mymacro".as_bytes())
    );
    assert_eq!(
        Matcher::find("  //    @den:: my macro !  // lol".as_bytes()),
        Find::Call("my macro".as_bytes())
    );
}

#[test]
fn call_no_bang() {
    assert_eq!(Matcher::find("//@den::mymacro".as_bytes()), Find::CallNoBang);
    assert_eq!(
        Matcher::find("  //    @den:: my macro   // lol".as_bytes()),
        Find::CallNoBang
    );
}

#[test]
fn attribute() {
    assert_eq!(Matcher::find("//".as_bytes()), Find::Attribute);
    assert_eq!(Matcher::find("  //    bla bla".as_bytes()), Find::Attribute);
}

#[test]
fn item() {
    assert_eq!(Matcher::find("  fn item() {}".as_bytes()), Find::Item);
}

#[test]
fn start() {
    assert_eq!(Matcher::find("//```@den```".as_bytes()), Find::Start);
    assert_eq!(
        Matcher::find("  //  ```@den```  // lqlqlq".as_bytes()),
        Find::Start
    );
}

#[test]
fn end() {
    assert_eq!(
        Matcher::find("//```@den```end:mymacro!".as_bytes()),
        Find::End("mymacro".as_bytes())
    );
    assert_eq!(
        Matcher::find("   //  ```@den```  end:   my macro  ! // kh".as_bytes()),
        Find::End("my macro".as_bytes())
    );
}

#[test]
fn end_no_bang() {
    assert_eq!(
        Matcher::find("//```@den```end:mymacro".as_bytes()),
        Find::EndNoBang
    );
    assert_eq!(
        Matcher::find("   //  ```@den```  end:   my macro   // kh".as_bytes()),
        Find::EndNoBang
    );
}

#[test]
fn empty() {
    assert_eq!(Matcher::find("".as_bytes()), Find::Empty);
    assert_eq!(Matcher::find("     ".as_bytes()), Find::Empty);
}
