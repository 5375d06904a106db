//! Types of the web3 adapter's API.
use vstd::prelude::*;

verus! {

/// An EVM compatible network.
pub struct Network {
    pub chain_id: usize,
    pub name: String,
    pub ticker: String,
    pub rpc_url: String,
}

/// The block a contract call is evaluated against.
#[derive(Clone, Copy, Debug, PartialEq, Eq, Structural)]
pub enum BlockSelector {
    Latest,
    Earliest,
    Pending,
    BlockNumber(usize),
}

/// Parameters for a request to make a call to an Ethereum contract.
#[allow(non_snake_case)]
pub struct TransactionCall {
    pub from: Option<[u8; 20]>,
    pub to: [u8; 20],
    pub gas: Option<usize>,
    pub gasPrice: Option<usize>,
    pub value: Option<usize>,
    pub data: Option<String>,
}

/// The lower-case hexadecimal digit of `d`.
pub open spec fn hex_digit(d: nat) -> char {
    if d < 10 {
        ('0' as nat + d) as char
    } else {
        ('a' as nat + d - 10) as char
    }
}

/// `n` in lower-case hexadecimal, without prefix or leading zeros.
pub open spec fn hex_of(n: nat) -> Seq<char>
    decreases n,
{
    if n < 16 {
        seq![hex_digit(n)]
    } else {
        hex_of(n / 16).push(hex_digit(n % 16))
    }
}

/// How a block selector is written as a JSON-RPC parameter.
pub open spec fn block_param(s: BlockSelector) -> Seq<char> {
    match s {
        BlockSelector::Latest => "latest"@,
        BlockSelector::Earliest => "earliest"@,
        BlockSelector::Pending => "pending"@,
        BlockSelector::BlockNumber(n) => hex_of(n as nat),
    }
}

fn hex_digit_str(d: usize) -> (r: &'static str)
    requires
        d < 16,
    ensures
        r@ == seq![hex_digit(d as nat)],
{
    proof {
        reveal_strlit("0");
        reveal_strlit("1");
        reveal_strlit("2");
        reveal_strlit("3");
        reveal_strlit("4");
        reveal_strlit("5");
        reveal_strlit("6");
        reveal_strlit("7");
        reveal_strlit("8");
        reveal_strlit("9");
        reveal_strlit("a");
        reveal_strlit("b");
        reveal_strlit("c");
        reveal_strlit("d");
        reveal_strlit("e");
        reveal_strlit("f");
    }
    match d {
        0 => "0",
        1 => "1",
        2 => "2",
        3 => "3",
        4 => "4",
        5 => "5",
        6 => "6",
        7 => "7",
        8 => "8",
        9 => "9",
        10 => "a",
        11 => "b",
        12 => "c",
        13 => "d",
        14 => "e",
        15 => "f",
        _ => "f",
    }
}

/// `n` in lower-case hexadecimal.
pub fn hex_string(n: usize) -> (r: String)
    ensures
        r@ == hex_of(n as nat),
    decreases n,
{
    if n < 16 {
        hex_digit_str(n).to_string()
    } else {
        let high = hex_string(n / 16);
        let r = high.concat(hex_digit_str(n % 16));
        proof {
            assert(r@ =~= hex_of(n as nat));
        }
        r
    }
}

impl BlockSelector {
    /// The selector as a JSON-RPC parameter: a tag, or the block number in
    /// hexadecimal.
    pub fn to_param(&self) -> (r: String)
        ensures
            r@ == block_param(*self),
    {
        match self {
            BlockSelector::Latest => "latest".to_string(),
            BlockSelector::Earliest => "earliest".to_string(),
            BlockSelector::Pending => "pending".to_string(),
            BlockSelector::BlockNumber(n) => hex_string(*n),
        }
    }
}

} // verus!
