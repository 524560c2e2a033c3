use crate::types::{Address, ObjectRef};
use vstd::prelude::*;

verus! {

/// An argument of a programmable-transaction command.
#[derive(Clone, Copy, Debug, PartialEq, Eq, Structural)]
pub enum Argument {
    /// The pseudo-input standing for the transaction's gas payment.
    GasCoin,
    /// One of the transaction's inputs.
    Input(u16),
    /// The result of an earlier command.
    Result(u16),
    /// One value of an earlier command's tuple result.
    NestedResult(u16, u16),
}

/// A command of a programmable transaction, reduced to its arguments.
#[derive(Clone, Debug)]
pub enum Command {
    MoveCall(Vec<Argument>),
    TransferObjects(Vec<Argument>, Argument),
    SplitCoins(Argument, Vec<Argument>),
    MergeCoins(Argument, Vec<Argument>),
    Publish,
    MakeMoveVec(Vec<Argument>),
    Upgrade,
}

/// Gas data of a transaction: who pays, and with which coins.
#[derive(Clone, Debug)]
pub struct GasData {
    pub owner: Address,
    pub payment: Vec<ObjectRef>,
    pub budget: u64,
    pub price: u64,
}

/// Transaction data as the pool inspects it.
#[derive(Clone, Debug)]
pub struct TransactionData {
    pub sender: Address,
    pub commands: Vec<Command>,
    pub gas_data: GasData,
}

/// Every argument a command takes.
pub open spec fn command_args(c: Command) -> Seq<Argument> {
    match c {
        Command::MoveCall(args) => args@,
        Command::TransferObjects(objs, recipient) => objs@.push(recipient),
        Command::SplitCoins(coin, amounts) => seq![coin] + amounts@,
        Command::MergeCoins(target, sources) => seq![target] + sources@,
        Command::Publish => seq![],
        Command::MakeMoveVec(args) => args@,
        Command::Upgrade => seq![],
    }
}

/// Whether some command of the sequence takes the gas coin as an argument.
pub open spec fn uses_gas_coin(cmds: Seq<Command>) -> bool {
    exists|i: int, j: int|
        0 <= i < cmds.len() && 0 <= j < command_args(cmds[i]).len()
            && (#[trigger] command_args(cmds[i])[j]) == Argument::GasCoin
}

fn args_use_gas_coin(args: &Vec<Argument>) -> (r: bool)
    ensures
        r == exists|j: int| 0 <= j < args@.len() && args@[j] == Argument::GasCoin,
{
    let mut k: usize = 0;
    while k < args.len()
        invariant
            0 <= k <= args@.len(),
            forall|j: int| 0 <= j < k ==> args@[j] != Argument::GasCoin,
        decreases args@.len() - k,
    {
        if matches!(args[k], Argument::GasCoin) {
            return true;
        }
        k += 1;
    }
    false
}

fn command_uses_gas_coin(c: &Command) -> (r: bool)
    ensures
        r == exists|j: int|
            0 <= j < command_args(*c).len() && command_args(*c)[j] == Argument::GasCoin,
{
    match c {
        Command::MoveCall(args) => args_use_gas_coin(args),
        Command::TransferObjects(objs, recipient) => {
            let r = args_use_gas_coin(objs) || matches!(recipient, Argument::GasCoin);
            proof {
                let s = command_args(*c);
                if r {
                    if !matches!(recipient, Argument::GasCoin) {
                        let j = choose|j: int| 0 <= j < objs@.len() && objs@[j] == Argument::GasCoin;
                        assert(s[j] == Argument::GasCoin);
                    } else {
                        assert(s[objs@.len() as int] == Argument::GasCoin);
                    }
                } else {
                    assert forall|j: int| 0 <= j < s.len() implies s[j] != Argument::GasCoin by {
                        if j < objs@.len() {
                            assert(s[j] == objs@[j]);
                        }
                    }
                }
            }
            r
        },
        Command::SplitCoins(coin, rest) | Command::MergeCoins(coin, rest) => {
            let r = matches!(coin, Argument::GasCoin) || args_use_gas_coin(rest);
            proof {
                let s = command_args(*c);
                assert(s == seq![*coin] + rest@);
                if r {
                    if matches!(coin, Argument::GasCoin) {
                        assert(s[0] == Argument::GasCoin);
                    } else {
                        let j = choose|j: int| 0 <= j < rest@.len() && rest@[j] == Argument::GasCoin;
                        assert(s[j + 1] == Argument::GasCoin);
                    }
                } else {
                    assert forall|j: int| 0 <= j < s.len() implies s[j] != Argument::GasCoin by {
                        if j > 0 {
                            assert(s[j] == rest@[j - 1]);
                        }
                    }
                }
            }
            r
        },
        Command::Publish => false,
        Command::MakeMoveVec(args) => args_use_gas_coin(args),
        Command::Upgrade => false,
    }
}

/// Accepts a transaction only if the gas coin pays gas and nothing else: no
/// command may take it as an argument.
pub fn check_transaction_validity(tx_data: &TransactionData) -> (r: Result<(), crate::types::GasPoolError>)
    ensures
        r is Ok <==> !uses_gas_coin(tx_data.commands@),
        r is Err ==> r == Err::<(), _>(crate::types::GasPoolError::GasCoinMisuse),
{
    let cmds = &tx_data.commands;
    let mut i: usize = 0;
    while i < cmds.len()
        invariant
            0 <= i <= cmds@.len(),
            cmds@ == tx_data.commands@,
            forall|a: int, j: int|
                0 <= a < i && 0 <= j < command_args(cmds@[a]).len()
                    ==> command_args(cmds@[a])[j] != Argument::GasCoin,
        decreases cmds@.len() - i,
    {
        if command_uses_gas_coin(&cmds[i]) {
            proof {
                let c = cmds@[i as int];
                let j = choose|j: int|
                    0 <= j < command_args(c).len() && command_args(c)[j] == Argument::GasCoin;
                let all = tx_data.commands@;
                assert(command_args(all[i as int])[j] == Argument::GasCoin);
                assert(uses_gas_coin(all));
            }
            return Err(crate::types::GasPoolError::GasCoinMisuse);
        }
        i += 1;
    }
    Ok(())
}

} // verus!
