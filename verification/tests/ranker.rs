use rps::{Identity, Rps, ValueEq};

#[derive(PartialEq, Debug)]
enum WithPEQ {
    Rock,
    Paper,
    Scissors,
}

enum WithoutPEQ {
    Rock,
    Paper,
    Scissors,
}

#[derive(Debug, PartialEq)]
enum RPSLSP {
    Rock,
    Paper,
    Scissors,
    Lizard,
    Spock,
}

#[test]
fn commutative() {
    let rps = Rps::new(&[WithPEQ::Paper, WithPEQ::Scissors, WithPEQ::Rock], ValueEq).unwrap();

    assert_eq!(
        rps.winner(&WithPEQ::Rock, &WithPEQ::Paper),
        rps.winner(&WithPEQ::Paper, &WithPEQ::Rock)
    );
}

#[test]
fn type_with_partial_eq() {
    let rps = Rps::new(&[WithPEQ::Paper, WithPEQ::Scissors, WithPEQ::Rock], ValueEq).unwrap();

    rps.winner(&WithPEQ::Rock, &WithPEQ::Scissors).unwrap().unwrap();
}

#[test]
fn type_without_partial_eq_incorrect() {
    let rps = Rps::new(
        &[WithoutPEQ::Paper, WithoutPEQ::Scissors, WithoutPEQ::Rock],
        Identity,
    )
    .unwrap();

    assert!(rps
        .winner(&WithoutPEQ::Rock, &WithoutPEQ::Scissors)
        .is_err());
}

#[test]
fn type_without_partial_eq_correct() {
    let items = [WithoutPEQ::Paper, WithoutPEQ::Scissors, WithoutPEQ::Rock];
    let rps = Rps::new(&items, Identity).unwrap();

    rps.winner(&items[0], &items[1]).unwrap().unwrap();
}

#[test]
fn draw() {
    let rps = Rps::new(&[WithPEQ::Paper, WithPEQ::Scissors, WithPEQ::Rock], ValueEq).unwrap();

    assert_eq!(rps.winner(&WithPEQ::Rock, &WithPEQ::Rock).unwrap(), None);
}

#[test]
fn rps_logic() {
    let rps = Rps::new(&[WithPEQ::Paper, WithPEQ::Scissors, WithPEQ::Rock], ValueEq).unwrap();

    assert_eq!(
        rps.winner(&WithPEQ::Rock, &WithPEQ::Paper).unwrap().unwrap(),
        &WithPEQ::Paper
    );
    assert_eq!(
        rps.winner(&WithPEQ::Rock, &WithPEQ::Scissors)
            .unwrap()
            .unwrap(),
        &WithPEQ::Rock
    );
    assert_eq!(
        rps.winner(&WithPEQ::Paper, &WithPEQ::Scissors)
            .unwrap()
            .unwrap(),
        &WithPEQ::Scissors
    );
}

#[test]
fn longer_logic() {
    let rps = Rps::new(
        &[
            RPSLSP::Rock,
            RPSLSP::Spock,
            RPSLSP::Paper,
            RPSLSP::Lizard,
            RPSLSP::Scissors,
        ],
        ValueEq,
    )
    .unwrap();

    assert_eq!(
        rps.winner(&RPSLSP::Rock, &RPSLSP::Scissors).unwrap().unwrap(),
        &RPSLSP::Rock
    );
    assert_eq!(
        rps.winner(&RPSLSP::Rock, &RPSLSP::Lizard).unwrap().unwrap(),
        &RPSLSP::Rock
    );
    assert_eq!(
        rps.winner(&RPSLSP::Scissors, &RPSLSP::Paper).unwrap().unwrap(),
        &RPSLSP::Scissors
    );
    assert_eq!(
        rps.winner(&RPSLSP::Scissors, &RPSLSP::Lizard)
            .unwrap()
            .unwrap(),
        &RPSLSP::Scissors
    );
    assert_eq!(
        rps.winner(&RPSLSP::Paper, &RPSLSP::Rock).unwrap().unwrap(),
        &RPSLSP::Paper
    );
    assert_eq!(
        rps.winner(&RPSLSP::Paper, &RPSLSP::Spock).unwrap().unwrap(),
        &RPSLSP::Paper
    );
    assert_eq!(
        rps.winner(&RPSLSP::Lizard, &RPSLSP::Paper).unwrap().unwrap(),
        &RPSLSP::Lizard
    );
    assert_eq!(
        rps.winner(&RPSLSP::Lizard, &RPSLSP::Spock).unwrap().unwrap(),
        &RPSLSP::Lizard
    );
    assert_eq!(
        rps.winner(&RPSLSP::Spock, &RPSLSP::Rock).unwrap().unwrap(),
        &RPSLSP::Spock
    );
    assert_eq!(
        rps.winner(&RPSLSP::Spock, &RPSLSP::Scissors).unwrap().unwrap(),
        &RPSLSP::Spock
    );
}
