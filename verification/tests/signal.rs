use std::cell::RefCell;
use std::rc::Rc;
use up4::signal::Stop;

#[test]
fn the_flag_starts_clear_and_latches() {
    let s = Rc::new(RefCell::new(Stop::new()));
    assert!(!s.borrow().requested());
    let clone = Rc::clone(&s);
    clone.borrow_mut().request();
    assert!(s.borrow().requested(), "clones share one flag");
    clone.borrow_mut().request();
    assert!(s.borrow().requested(), "requesting twice is idempotent");
}
