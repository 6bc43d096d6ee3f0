use wordle_solver::{Guess, Guesser, Wordle};

/// A scripted guesser: it answers "right" once the history has grown to
/// `right_at` rounds, and "wrong" before that.
struct Scripted {
    right_at: usize,
}

impl Guesser for Scripted {
    fn guess(&mut self, history: &[Guess]) -> String {
        if history.len() == self.right_at {
            return "right".to_string();
        }
        "wrong".to_string()
    }
}

fn game() -> Wordle {
    Wordle::new(vec!["right".to_string(), "wrong".to_string()])
}

#[test]
fn genius() {
    let w = game();
    let guesser = Scripted { right_at: 0 };
    assert_eq!(w.play("right", guesser), Ok(Some(1)));
}

#[test]
fn magnificent() {
    let w = game();
    let guesser = Scripted { right_at: 1 };
    assert_eq!(w.play("right", guesser), Ok(Some(2)));
}

#[test]
fn impressive() {
    let w = game();
    let guesser = Scripted { right_at: 2 };
    assert_eq!(w.play("right", guesser), Ok(Some(3)));
}

#[test]
fn splendid() {
    let w = game();
    let guesser = Scripted { right_at: 3 };
    assert_eq!(w.play("right", guesser), Ok(Some(4)));
}

#[test]
fn great() {
    let w = game();
    let guesser = Scripted { right_at: 4 };
    assert_eq!(w.play("right", guesser), Ok(Some(5)));
}

#[test]
fn phew() {
    let w = game();
    let guesser = Scripted { right_at: 5 };
    assert_eq!(w.play("right", guesser), Ok(Some(6)));
}

#[test]
fn ooops() {
    let w = game();
    // never says "right": the round bound ends the game as a normal loss
    let guesser = Scripted { right_at: 99 };
    assert_eq!(w.play("right", guesser), Ok(None));
}
