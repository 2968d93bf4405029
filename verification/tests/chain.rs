use pow_ledger::block::Block;
use pow_ledger::chain::Chain;

const DATA: &str = "foo";
const DATA2: &str = "goo";

fn create() -> (Chain, Chain) {
    (Chain::new(), Chain::new())
}

fn hex_to_binary(hex: &str) -> String {
    match hex::decode(hex) {
        Ok(bytes) => bytes
            .iter()
            .map(|byte| format!("{:08b}", byte))
            .collect::<Vec<String>>()
            .join(""),
        Err(e) => format!("Error decoding hex: {}", e),
    }
}

#[test]
fn genesis() {
    assert_eq!(create().0.chain[0], Block::genesis());
}

#[test]
fn add() {
    let mut c = create().0;
    c.add(DATA);

    assert_eq!(c.chain.last().unwrap().data, DATA);
}

#[test]
fn valid() {
    let mut c: Chain = create().0;
    c.add(DATA);

    assert_eq!(c.validate().unwrap(), "Blockchain is valid.");
}

#[test]
fn verify_nonce() {
    let mut c: Chain = create().0;
    c.add(DATA);

    let b = c.chain.last().unwrap();

    assert_eq!(
        hex_to_binary(b.hash().0.as_str())[..b.difficulty],
        "0".repeat(b.difficulty)
    );
}

#[test]
fn invalid_genesis() {
    let mut c: Chain = create().0;

    c.chain[0].data = "Bad data".to_string();

    assert_ne!(c.chain[0].hash(), Block::genesis().hash());
}

#[test]
fn invalid_chain() {
    let (c1, mut c2) = create();

    c2.add(DATA);
    c2.chain[0].data = "Not foo".to_string();

    assert_ne!(c1.validate(), c2.validate());
    assert_eq!(Chain::check(&c2.chain), Err("Blockchain is not valid."));
}

#[test]
fn replace_chain() {
    let (mut c1, mut c2) = create();

    c2.add(DATA2);
    assert!(c1.replace(c2.chain.clone()).is_some());
    assert_eq!(c1.chain.len(), 2);
}

#[test]
fn replace_chain_invalid_length() {
    let (mut c1, c2) = create();

    c1.add(DATA);
    assert!(c1.replace(c2.chain.clone()).is_none());
    assert_eq!(c1.chain.len(), 2);
}
