//! Encoding of the outbound instructions into host messages. The handlers
//! state exactly which transfers they emit as `TransferMsg` values; this
//! module turns each into the wasm-execute message the host dispatches, by
//! calling the fungible-token and NFT message types and the host's JSON
//! encoder. The encoded message is opaque here: correctness of what is
//! transferred to whom is stated on `TransferMsg`.
use vstd::prelude::*;

use crate::error::ContractError;
use crate::msg::TransferMsg;

verus! {

#[verifier::external_type_specification]
#[verifier::external_body]
#[verifier::reject_recursive_types(T)]
pub struct ExCosmosMsg<T>(cosmwasm_std::CosmosMsg<T>);

#[verifier::external_type_specification]
#[verifier::external_body]
pub struct ExEmpty(cosmwasm_std::Empty);

#[verifier::external_type_specification]
#[verifier::external_body]
pub struct ExStdError(cosmwasm_std::StdError);

/// Relies on cosmwasm_std::to_binary and cw20::Cw20ExecuteMsg: builds the
/// wasm-execute message asking the fungible-token ledger at `contract_addr`
/// to transfer `amount` to `recipient`.
#[verifier::external_body]
fn encode_token_transfer(contract_addr: &String, recipient: &String, amount: u128) -> Result<
    cosmwasm_std::CosmosMsg<cosmwasm_std::Empty>,
    cosmwasm_std::StdError,
> {
    let msg = cosmwasm_std::to_binary(
        &cw20::Cw20ExecuteMsg::Transfer {
            recipient: recipient.clone(),
            amount: cosmwasm_std::Uint128::new(amount),
        },
    )?;
    Ok(
        cosmwasm_std::CosmosMsg::Wasm(
            cosmwasm_std::WasmMsg::Execute {
                contract_addr: contract_addr.clone(),
                msg,
                funds: Vec::new(),
            },
        ),
    )
}

/// Relies on cosmwasm_std::to_binary and cw721::Cw721ExecuteMsg: builds the
/// wasm-execute message asking the custody contract at `contract_addr` to
/// transfer the NFT `token_id` to `recipient`.
#[verifier::external_body]
fn encode_nft_transfer(contract_addr: &String, recipient: &String, token_id: &String) -> Result<
    cosmwasm_std::CosmosMsg<cosmwasm_std::Empty>,
    cosmwasm_std::StdError,
> {
    let msg = cosmwasm_std::to_binary(
        &cw721::Cw721ExecuteMsg::TransferNft {
            recipient: recipient.clone(),
            token_id: token_id.clone(),
        },
    )?;
    Ok(
        cosmwasm_std::CosmosMsg::Wasm(
            cosmwasm_std::WasmMsg::Execute {
                contract_addr: contract_addr.clone(),
                msg,
                funds: Vec::new(),
            },
        ),
    )
}

/// Encode the emitted instructions for the host, one message per
/// instruction, in emission order; an encoding failure surfaces as `Std`.
pub fn encode_transfers(msgs: &Vec<TransferMsg>) -> (r: Result<
    Vec<cosmwasm_std::CosmosMsg<cosmwasm_std::Empty>>,
    ContractError,
>)
    ensures
        r matches Ok(v) ==> v@.len() == msgs@.len(),
        r is Err ==> r == Err::<
            Vec<cosmwasm_std::CosmosMsg<cosmwasm_std::Empty>>,
            ContractError,
        >(ContractError::Std),
{
    let n = msgs.len();
    let mut out: Vec<cosmwasm_std::CosmosMsg<cosmwasm_std::Empty>> = Vec::new();
    let mut k: usize = 0;
    while k < n
        invariant
            n == msgs@.len(),
            k <= n,
            out@.len() == k,
        decreases n - k,
    {
        let encoded = match &msgs[k] {
            TransferMsg::Token { contract_addr, recipient, amount } => encode_token_transfer(
                contract_addr,
                recipient,
                *amount,
            ),
            TransferMsg::Nft { contract_addr, recipient, token_id } => encode_nft_transfer(
                contract_addr,
                recipient,
                token_id,
            ),
        };
        match encoded {
            Ok(m) => out.push(m),
            Err(_) => {
                return Err(ContractError::Std);
            },
        }
        k = k + 1;
    }
    Ok(out)
}

} // verus!
