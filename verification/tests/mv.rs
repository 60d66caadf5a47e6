use pijersi::mv::Mv;
use pijersi::square::Square;

#[test]
fn move_strings() {
    let tests = [
        (Mv::SoloMove(Square(0), Square(1)), "a1a2"),
        (Mv::SoloStack(Square(0), Square(1)), "a1a2"),
        (Mv::SoloStackMove(Square(0), Square(1), Square(2)), "a1a2a3"),
        (Mv::StackMove(Square(0), Square(1)), "a1a2a2"),
        (
            Mv::StackMoveDestack(Square(0), Square(1), Square(2)),
            "a1a2a3",
        ),
    ];

    for (mv, str) in tests {
        assert_eq!(mv.to_string(), str);
    }
}

#[test]
fn move_strings_of_the_stack_shapes() {
    assert_eq!(Mv::StackDestack(Square(0), Square(1)).to_string(), "a1a1a2");
    assert_eq!(Mv::StackStack(Square(0), Square(1)).to_string(), "a1a1a2");
    assert_eq!(
        Mv::StackStackMove(Square(22), Square(23), Square(44)).to_string(),
        "d4d5g6"
    );
}
