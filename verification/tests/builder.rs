use flashloan_rs::address::Address;
use flashloan_rs::builder::DeployFailure;
use flashloan_rs::builder::FlashClient;
use flashloan_rs::builder::FlashloanBuilder;
use flashloan_rs::builder::TransactionReceipt;
use flashloan_rs::builder::first_account;
use flashloan_rs::builder::resolve_lender;
use flashloan_rs::builder::resolve_owner;
use flashloan_rs::calls::Call3;
use flashloan_rs::errors::FlashloanError;
use flashloan_rs::uint256::U256;
use std::cell::RefCell;

const DSS_FLASH: [u8; 20] = [
    0x1e, 0xb4, 0xcf, 0x3a, 0x94, 0x8e, 0x7d, 0x72, 0xa1, 0x98, 0xfe, 0x07, 0x3c, 0xcb, 0x8c,
    0x7a, 0x94, 0x8c, 0xd8, 0x53,
];
const DAI: [u8; 20] = [
    0x6b, 0x17, 0x54, 0x74, 0xe8, 0x90, 0x94, 0xc4, 0x4d, 0xa9, 0x8b, 0x95, 0x4e, 0xed, 0xea,
    0xc4, 0x95, 0x27, 0x1d, 0x0f,
];

fn addr(bytes: [u8; 20]) -> Address {
    Address::from_bytes(bytes.to_vec()).unwrap()
}

fn addr_n(n: u8) -> Address {
    Address::from_bytes(vec![n; 20]).unwrap()
}

struct MockClient {
    accounts: Result<Vec<Address>, String>,
    deploy_result: Result<Address, DeployFailure>,
    call_result: Result<(), String>,
    send_result: Result<bool, String>,
    log: RefCell<Vec<&'static str>>,
    seen_lender: RefCell<Option<Vec<u8>>>,
    seen_owner: RefCell<Option<Vec<u8>>>,
}

impl MockClient {
    fn happy() -> MockClient {
        MockClient {
            accounts: Ok(vec![addr_n(0x11)]),
            deploy_result: Ok(addr_n(0x22)),
            call_result: Ok(()),
            send_result: Ok(true),
            log: RefCell::new(Vec::new()),
            seen_lender: RefCell::new(None),
            seen_owner: RefCell::new(None),
        }
    }
}

impl FlashClient for MockClient {
    fn get_accounts(&self) -> Result<Vec<Address>, String> {
        self.log.borrow_mut().push("get_accounts");
        self.accounts.clone()
    }

    fn deploy_contract(&self, lender: &Address, owner: &Address) -> Result<Address, DeployFailure> {
        self.log.borrow_mut().push("deploy");
        *self.seen_lender.borrow_mut() = Some(lender.as_bytes().clone());
        *self.seen_owner.borrow_mut() = Some(owner.as_bytes().clone());
        self.deploy_result.clone()
    }

    fn call(&self, _b: &Address, _t: &Address, _a: &U256, _c: &[Call3]) -> Result<(), String> {
        self.log.borrow_mut().push("call");
        self.call_result.clone()
    }

    fn send_transaction(
        &self,
        _b: &Address,
        _t: &Address,
        _a: &U256,
        _c: &[Call3],
    ) -> Result<Option<TransactionReceipt>, String> {
        self.log.borrow_mut().push("send");
        match &self.send_result {
            Ok(true) => Ok(Some(TransactionReceipt {
                transaction_hash: vec![0xab; 32],
                block_number: Some(17),
                gas_used: Some(U256::from_u64(21000)),
            })),
            Ok(false) => Ok(None),
            Err(m) => Err(m.clone()),
        }
    }
}

#[test]
fn test_create_builder() {
    let client = MockClient::happy();
    let builder = FlashloanBuilder::new(client, 1, None, None, None, None, None);

    assert!(builder.borrower.is_none());
    assert!(builder.owner.is_none());
    assert!(builder.lender.is_none());
    assert!(builder.token.is_none());
    assert!(builder.amount.is_none());
    assert_eq!(builder.calls, vec![]);
    assert_eq!(builder.chain_id, 1);
}

#[test]
fn add_call_keeps_insertion_order() {
    let mut builder = FlashloanBuilder::new(MockClient::happy(), 1, None, None, None, None, None);
    let c1 = Call3 { target: addr_n(1), allow_failure: false, value: None, data: vec![1] };
    let c2 = Call3 { target: addr_n(2), allow_failure: true, value: None, data: vec![2] };
    let c3 = Call3 { target: addr_n(3), allow_failure: false, value: None, data: vec![3] };
    builder.add_call(c1.clone());
    builder.add_call(c2.clone());
    builder.add_call(c3.clone());
    let snapshot = builder.to_ordered_sequence();
    assert_eq!(snapshot, vec![c1, c2, c3]);
}

#[test]
fn ordered_sequence_is_a_deep_copy() {
    let mut builder = FlashloanBuilder::new(MockClient::happy(), 1, None, None, None, None, None);
    let c1 = Call3 { target: addr_n(1), allow_failure: false, value: None, data: vec![1] };
    builder.add_call(c1.clone());
    let snapshot = builder.to_ordered_sequence();
    let c2 = Call3 { target: addr_n(2), allow_failure: true, value: None, data: vec![2] };
    builder.add_call(c2);
    assert_eq!(snapshot, vec![c1]);
    assert_eq!(builder.calls.len(), 2);
}

#[test]
fn missing_field_errors_come_in_fixed_order() {
    let mut builder = FlashloanBuilder::new(MockClient::happy(), 1, None, None, None, None, None);
    assert_eq!(builder.call(), Err(FlashloanError::MissingToken));
    assert!(matches!(builder.execute(), Err(FlashloanError::MissingToken)));

    builder.with_token(addr(DAI));
    assert_eq!(builder.call(), Err(FlashloanError::MissingAmount));
    assert!(matches!(builder.execute(), Err(FlashloanError::MissingAmount)));

    builder.with_amount(U256::from_u64(5));
    assert_eq!(builder.call(), Err(FlashloanError::MissingBorrower));
    assert!(matches!(builder.execute(), Err(FlashloanError::MissingBorrower)));
}

#[test]
fn deploy_uses_explicit_lender_and_owner_first() {
    let mut builder = FlashloanBuilder::new(
        MockClient::happy(),
        1,
        Some(addr_n(0x0a)),
        Some(addr_n(0x0b)),
        None,
        None,
        None,
    );
    let r = builder.deploy(Some(addr_n(0x0c)), Some(addr_n(0x0d)));
    assert!(r.is_ok());
    assert_eq!(*builder.client.seen_lender.borrow(), Some(vec![0x0c; 20]));
    assert_eq!(*builder.client.seen_owner.borrow(), Some(vec![0x0d; 20]));
    assert_eq!(*builder.client.log.borrow(), vec!["deploy"]);
}

#[test]
fn deploy_falls_back_to_default_lender_and_first_account() {
    let mut builder = FlashloanBuilder::new(MockClient::happy(), 1, None, None, None, None, None);
    let r = builder.deploy(None, None);
    assert!(r.is_ok());
    assert!(builder.borrower.is_some());
    assert_eq!(*builder.client.seen_lender.borrow(), Some(DSS_FLASH.to_vec()));
    assert_eq!(*builder.client.seen_owner.borrow(), Some(vec![0x11; 20]));
    assert_eq!(*builder.client.log.borrow(), vec!["get_accounts", "deploy"]);
}

#[test]
fn deploy_without_any_owner_fails_with_missing_owner() {
    let mut client = MockClient::happy();
    client.accounts = Ok(vec![]);
    let mut builder = FlashloanBuilder::new(client, 1, None, None, None, None, None);
    assert_eq!(builder.deploy(None, None), Err(FlashloanError::MissingOwner));
    assert!(builder.borrower.is_none());
}

#[test]
fn deploy_surfaces_account_query_failure() {
    let mut client = MockClient::happy();
    client.accounts = Err("rpc down".to_string());
    let mut builder = FlashloanBuilder::new(client, 1, None, None, None, None, None);
    assert_eq!(
        builder.deploy(None, None),
        Err(FlashloanError::ClientFailure("rpc down".to_string()))
    );
    assert!(builder.borrower.is_none());
}

#[test]
fn deploy_failures_leave_borrower_unset() {
    let mut client = MockClient::happy();
    client.deploy_result = Err(DeployFailure::Rejected);
    let mut builder = FlashloanBuilder::new(client, 1, Some(addr_n(1)), None, None, None, None);
    assert_eq!(builder.deploy(None, None), Err(FlashloanError::ContractDeployError));
    assert!(builder.borrower.is_none());

    builder.client.deploy_result = Err(DeployFailure::NotConfirmed);
    assert_eq!(builder.deploy(None, None), Err(FlashloanError::ContractDeployFailed));
    assert!(builder.borrower.is_none());
}

#[test]
fn deploy_transitions_borrower_exactly_once() {
    let mut builder = FlashloanBuilder::new(MockClient::happy(), 1, Some(addr_n(1)), None, None, None, None);
    assert!(builder.borrower.is_none());
    assert!(builder.deploy(None, None).is_ok());
    let deployed = builder.borrower.clone();
    assert_eq!(deployed, Some(addr_n(0x22)));

    // a second deploy neither clears nor replaces the borrower
    builder.client.deploy_result = Ok(addr_n(0x33));
    assert_eq!(builder.deploy(None, None), Err(FlashloanError::AlreadyDeployed));
    assert_eq!(builder.borrower, deployed);
}

#[test]
fn deploy_on_attached_session_is_refused() {
    let mut builder = FlashloanBuilder::new(
        MockClient::happy(),
        1,
        None,
        None,
        None,
        None,
        Some(addr_n(0x44)),
    );
    assert_eq!(builder.borrower, Some(addr_n(0x44)));
    assert_eq!(builder.deploy(None, None), Err(FlashloanError::AlreadyDeployed));
    assert_eq!(builder.borrower, Some(addr_n(0x44)));
}

#[test]
fn end_to_end_deploy_then_execute() {
    let client = MockClient::happy();
    let mut builder = FlashloanBuilder::new(
        client,
        1,
        Some(addr_n(0x11)),
        Some(addr(DSS_FLASH)),
        Some(addr(DAI)),
        Some(U256::from_u64(1_000_000)),
        None,
    );
    builder.add_call(Call3 {
        target: addr(DAI),
        allow_failure: false,
        value: Some(U256::zero()),
        data: vec![0x09, 0x5e, 0xa7, 0xb3],
    });

    assert!(builder.deploy(None, None).is_ok());
    assert!(builder.borrower.is_some());
    assert!(builder.call().is_ok());
    let receipt = builder.execute().unwrap();
    let receipt = receipt.unwrap();
    assert_eq!(receipt.transaction_hash, vec![0xab; 32]);
    assert_eq!(receipt.block_number, Some(17));
    // the only external effects: the deployment, the simulation, and the
    // flashloan transaction, in that order
    assert_eq!(*builder.client.log.borrow(), vec!["deploy", "call", "send"]);
}

#[test]
fn failing_batch_surfaces_contract_error_and_no_receipt() {
    let mut client = MockClient::happy();
    client.send_result = Err("execution reverted".to_string());
    client.call_result = Err("execution reverted".to_string());
    let mut builder = FlashloanBuilder::new(
        client,
        1,
        None,
        None,
        Some(addr(DAI)),
        Some(U256::from_u64(7)),
        Some(addr_n(0x22)),
    );
    builder.add_call(Call3 {
        target: addr(DAI),
        allow_failure: false,
        value: None,
        data: vec![0xde, 0xad],
    });
    let before_calls = builder.to_ordered_sequence();

    assert_eq!(
        builder.call(),
        Err(FlashloanError::ContractError("execution reverted".to_string()))
    );
    let r = builder.execute();
    assert_eq!(r, Err(FlashloanError::ContractError("execution reverted".to_string())));

    // the session is unchanged, so the caller may retry
    assert_eq!(builder.to_ordered_sequence(), before_calls);
    assert_eq!(builder.token, Some(addr(DAI)));
    assert_eq!(builder.amount, Some(U256::from_u64(7)));
    assert_eq!(builder.borrower, Some(addr_n(0x22)));
}

#[test]
fn execute_may_report_no_receipt() {
    let mut client = MockClient::happy();
    client.send_result = Ok(false);
    let mut builder = FlashloanBuilder::new(
        client,
        1,
        None,
        None,
        Some(addr(DAI)),
        Some(U256::from_u64(7)),
        Some(addr_n(0x22)),
    );
    let r = builder.execute().unwrap();
    assert!(r.is_none());
}

#[test]
fn setters_overwrite_and_inner_exposes_client() {
    let mut builder = FlashloanBuilder::new(MockClient::happy(), 5, None, None, None, None, None);
    builder.with_owner(addr_n(1));
    builder.with_owner(addr_n(2));
    builder.with_lender(addr_n(3));
    builder.with_token(addr_n(4));
    builder.with_amount(U256::from_u64(9));
    assert_eq!(builder.owner, Some(addr_n(2)));
    assert_eq!(builder.lender, Some(addr_n(3)));
    assert_eq!(builder.token, Some(addr_n(4)));
    assert_eq!(builder.amount, Some(U256::from_u64(9)));
    assert_eq!(builder.chain_id, 5);
    assert!(builder.inner().log.borrow().is_empty());
}

#[test]
fn resolution_helpers_follow_precedence() {
    let a = addr_n(1);
    let b = addr_n(2);
    assert_eq!(resolve_lender(&Some(a.clone()), &Some(b.clone())), a);
    assert_eq!(resolve_lender(&None, &Some(b.clone())), b);
    assert_eq!(resolve_lender(&None, &None), addr(DSS_FLASH));
    assert_eq!(resolve_lender(&None, &None), Address::default_lender());

    assert_eq!(resolve_owner(&Some(a.clone()), &Some(b.clone())), Some(a.clone()));
    assert_eq!(resolve_owner(&None, &Some(b.clone())), Some(b));
    assert_eq!(resolve_owner(&None, &None), None);

    assert_eq!(first_account(&vec![a.clone()]), Ok(a));
    assert_eq!(first_account(&vec![]), Err(FlashloanError::MissingOwner));
}

#[test]
fn error_messages_name_their_cause() {
    assert!(FlashloanError::MissingToken.message().contains("token"));
    assert!(FlashloanError::MissingAmount.message().contains("amount"));
    assert!(FlashloanError::MissingBorrower.message().contains("borrower"));
    assert!(FlashloanError::MissingOwner.message().contains("owner"));
    assert!(FlashloanError::ContractError("boom".to_string()).message().contains("boom"));
    assert!(FlashloanError::ClientFailure("down".to_string()).message().contains("down"));
    assert!(
        FlashloanError::CallConstructionError("{bad".to_string()).message().contains("{bad")
    );
}

#[test]
fn empty_batch_is_a_legal_flashloan() {
    let mut builder = FlashloanBuilder::new(
        MockClient::happy(),
        1,
        None,
        None,
        Some(addr(DAI)),
        Some(U256::from_u64(1)),
        Some(addr_n(0x22)),
    );
    assert!(builder.calls.is_empty());
    assert!(builder.call().is_ok());
    assert!(builder.execute().unwrap().is_some());
}
