use texture_atlas::debugger::Debugger;

#[test]
fn print_emits_without_panicking() {
    let debug = Debugger::new();
    debug.print("atlas ready");
    debug.print("");
}
