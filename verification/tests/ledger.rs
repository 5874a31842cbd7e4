use chigui_core::balance_map::BalanceMap;
use chigui_core::state::{Genesis, LedgerError, State};
use chigui_core::{u64_to_decimal, Account, Tx};

fn test_genesis(accounts: &[(&str, u64)]) -> Genesis {
    let mut map = BalanceMap::new();
    for (name, balance) in accounts {
        map.insert(Account::new(name), *balance);
    }
    Genesis::new(
        String::from("2021-01-01T00:00:00Z"),
        String::from("testnet"),
        map,
    )
}

#[test]
fn apply_transfer_tx() {
    let genesis = test_genesis(&[("alice", 1000), ("bob", 1000)]);
    let mut state = State::from_parts(genesis, Vec::default()).unwrap();

    state
        .apply(&Tx::Transfer {
            from: Account::new("alice"),
            to: Account::new("bob"),
            value: 10,
        })
        .unwrap();

    assert_eq!(state.get_balance(&Account::new("bob")).unwrap(), 1010);
    assert_eq!(state.get_balance(&Account::new("alice")).unwrap(), 990);
}

#[test]
fn generate_coins() {
    let genesis = test_genesis(&[("alice", 1000), ("bob", 1000)]);
    let mut state = State::from_parts(genesis, Vec::default()).unwrap();

    state
        .apply(&Tx::Generate {
            to: Account::new("bob"),
            value: 10,
        })
        .unwrap();

    assert_eq!(state.get_balance(&Account::new("bob")).unwrap(), 1010);
    assert_eq!(state.get_balance(&Account::new("alice")).unwrap(), 1000);
}

#[test]
fn genesis_keeps_its_metadata() {
    let genesis = test_genesis(&[("alice", 1)]);
    assert_eq!(genesis.genesis_time(), "2021-01-01T00:00:00Z");
    assert_eq!(genesis.chain_id(), "testnet");
}

#[test]
fn empty_replay_keeps_genesis() {
    let genesis = test_genesis(&[("alice", 5), ("bob", 0)]);
    let state = State::from_parts(genesis, Vec::new()).unwrap();
    assert_eq!(state.get_balance(&Account::new("alice")), Some(5));
    assert_eq!(state.get_balance(&Account::new("bob")), Some(0));
    assert_eq!(state.get_balance(&Account::new("carol")), None);
}

#[test]
fn transfer_whole_balance_empties_source() {
    let genesis = test_genesis(&[("alice", 100), ("bob", 7)]);
    let mut state = State::from_parts(genesis, Vec::new()).unwrap();
    state
        .apply(&Tx::Transfer {
            from: Account::new("alice"),
            to: Account::new("bob"),
            value: 100,
        })
        .unwrap();
    assert_eq!(state.get_balance(&Account::new("alice")), Some(0));
    assert_eq!(state.get_balance(&Account::new("bob")), Some(107));
}

#[test]
fn transfer_one_over_balance_fails() {
    let genesis = test_genesis(&[("alice", 100), ("bob", 7)]);
    let mut state = State::from_parts(genesis, Vec::new()).unwrap();
    let err = state
        .apply(&Tx::Transfer {
            from: Account::new("alice"),
            to: Account::new("bob"),
            value: 101,
        })
        .unwrap_err();
    assert_eq!(err, LedgerError::InsufficientBalance);
    assert_eq!(state.get_balance(&Account::new("alice")), Some(100));
    assert_eq!(state.get_balance(&Account::new("bob")), Some(7));
}

#[test]
fn transfer_to_missing_account_fails() {
    let genesis = test_genesis(&[("alice", 100)]);
    let mut state = State::from_parts(genesis, Vec::new()).unwrap();
    let err = state
        .apply(&Tx::Transfer {
            from: Account::new("alice"),
            to: Account::new("carol"),
            value: 10,
        })
        .unwrap_err();
    assert_eq!(
        err,
        LedgerError::AccountNotFound {
            account: Account::new("carol")
        }
    );
    assert_eq!(state.get_balance(&Account::new("alice")), Some(100));
}

#[test]
fn transfer_from_missing_account_fails() {
    let genesis = test_genesis(&[("alice", 100)]);
    let mut state = State::from_parts(genesis, Vec::new()).unwrap();
    let err = state
        .apply(&Tx::Transfer {
            from: Account::new("carol"),
            to: Account::new("alice"),
            value: 10,
        })
        .unwrap_err();
    assert_eq!(
        err,
        LedgerError::AccountNotFound {
            account: Account::new("carol")
        }
    );
    assert_eq!(state.get_balance(&Account::new("alice")), Some(100));
}

#[test]
fn generate_on_missing_account_fails() {
    let genesis = test_genesis(&[("alice", 100)]);
    let mut state = State::from_parts(genesis, Vec::new()).unwrap();
    let err = state
        .apply(&Tx::Generate {
            to: Account::new("carol"),
            value: 10,
        })
        .unwrap_err();
    assert_eq!(
        err,
        LedgerError::AccountNotFound {
            account: Account::new("carol")
        }
    );
    assert_eq!(state.get_balance(&Account::new("alice")), Some(100));
}

#[test]
fn generate_overflow_fails() {
    let genesis = test_genesis(&[("bob", 1)]);
    let mut state = State::from_parts(genesis, Vec::new()).unwrap();
    let err = state
        .apply(&Tx::Generate {
            to: Account::new("bob"),
            value: u64::MAX,
        })
        .unwrap_err();
    assert_eq!(err, LedgerError::ArithmeticOverflow);
    assert_eq!(state.get_balance(&Account::new("bob")), Some(1));
}

#[test]
fn transfer_overflow_fails() {
    let genesis = test_genesis(&[("alice", u64::MAX), ("bob", 2)]);
    let mut state = State::from_parts(genesis, Vec::new()).unwrap();
    let err = state
        .apply(&Tx::Transfer {
            from: Account::new("alice"),
            to: Account::new("bob"),
            value: u64::MAX,
        })
        .unwrap_err();
    assert_eq!(err, LedgerError::ArithmeticOverflow);
    assert_eq!(state.get_balance(&Account::new("alice")), Some(u64::MAX));
    assert_eq!(state.get_balance(&Account::new("bob")), Some(2));
}

#[test]
fn self_transfer_checks_but_moves_nothing() {
    let genesis = test_genesis(&[("alice", 50)]);
    let mut state = State::from_parts(genesis, Vec::new()).unwrap();
    state
        .apply(&Tx::Transfer {
            from: Account::new("alice"),
            to: Account::new("alice"),
            value: 50,
        })
        .unwrap();
    assert_eq!(state.get_balance(&Account::new("alice")), Some(50));
    let err = state
        .apply(&Tx::Transfer {
            from: Account::new("alice"),
            to: Account::new("alice"),
            value: 51,
        })
        .unwrap_err();
    assert_eq!(err, LedgerError::InsufficientBalance);
    assert_eq!(state.get_balance(&Account::new("alice")), Some(50));
}

#[test]
fn replay_order_is_significant() {
    let genesis = test_genesis(&[("alice", 100), ("bob", 0)]);
    let txs = vec![
        Tx::Transfer {
            from: Account::new("alice"),
            to: Account::new("bob"),
            value: 100,
        },
        Tx::Transfer {
            from: Account::new("bob"),
            to: Account::new("alice"),
            value: 50,
        },
    ];
    let state = State::from_parts(genesis, txs).unwrap();
    assert_eq!(state.get_balance(&Account::new("alice")), Some(50));
    assert_eq!(state.get_balance(&Account::new("bob")), Some(50));

    let genesis = test_genesis(&[("alice", 100), ("bob", 0)]);
    let reordered = vec![
        Tx::Transfer {
            from: Account::new("bob"),
            to: Account::new("alice"),
            value: 50,
        },
        Tx::Transfer {
            from: Account::new("alice"),
            to: Account::new("bob"),
            value: 100,
        },
    ];
    let err = State::from_parts(genesis, reordered).unwrap_err();
    assert_eq!(err, LedgerError::InsufficientBalance);
}

#[test]
fn replay_generate_end_to_end() {
    let genesis = test_genesis(&[("alice", 1000), ("bob", 1000)]);
    let txs = vec![Tx::Generate {
        to: Account::new("bob"),
        value: 10,
    }];
    let state = State::from_parts(genesis, txs).unwrap();
    assert_eq!(state.get_balance(&Account::new("alice")), Some(1000));
    assert_eq!(state.get_balance(&Account::new("bob")), Some(1010));
}

#[test]
fn replay_transfer_end_to_end() {
    let genesis = test_genesis(&[("alice", 1000), ("bob", 1000)]);
    let txs = vec![Tx::Transfer {
        from: Account::new("alice"),
        to: Account::new("bob"),
        value: 10,
    }];
    let state = State::from_parts(genesis, txs).unwrap();
    assert_eq!(state.get_balance(&Account::new("alice")), Some(990));
    assert_eq!(state.get_balance(&Account::new("bob")), Some(1010));
}

#[test]
fn replay_stops_at_first_failure() {
    let genesis = test_genesis(&[("alice", 10), ("bob", 0)]);
    let txs = vec![
        Tx::Transfer {
            from: Account::new("alice"),
            to: Account::new("bob"),
            value: 10,
        },
        Tx::Generate {
            to: Account::new("carol"),
            value: 1,
        },
        Tx::Transfer {
            from: Account::new("alice"),
            to: Account::new("missing-too"),
            value: 1,
        },
    ];
    let err = State::from_parts(genesis, txs).unwrap_err();
    assert_eq!(
        err,
        LedgerError::AccountNotFound {
            account: Account::new("carol")
        }
    );
}

#[test]
fn balances_list_returns_every_pair() {
    let genesis = test_genesis(&[("alice", 3), ("bob", 4)]);
    let state = State::from_parts(genesis, Vec::new()).unwrap();
    let mut pairs: Vec<(String, u64)> = state
        .balances_list()
        .into_iter()
        .map(|(a, v)| (a.as_str().to_string(), v))
        .collect();
    pairs.sort();
    assert_eq!(
        pairs,
        vec![(String::from("alice"), 3), (String::from("bob"), 4)]
    );
}

#[test]
fn balance_map_insert_overwrites() {
    let mut map = BalanceMap::new();
    map.insert(Account::new("alice"), 1);
    map.insert(Account::new("alice"), 9);
    assert_eq!(map.get(&Account::new("alice")), Some(9));
    assert_eq!(map.get(&Account::new("bob")), None);
}

#[test]
fn decimal_rendering() {
    assert_eq!(u64_to_decimal(0), "0");
    assert_eq!(u64_to_decimal(7), "7");
    assert_eq!(u64_to_decimal(1010), "1010");
    assert_eq!(u64_to_decimal(u64::MAX), "18446744073709551615");
}

#[test]
fn describe_renders_log_lines() {
    let transfer = Tx::Transfer {
        from: Account::new("alice"),
        to: Account::new("bob"),
        value: 10,
    };
    assert_eq!(
        transfer.describe(),
        "[TXN] \"alice\" transferred \"10\" coins to \"bob\" account"
    );
    let generate = Tx::Generate {
        to: Account::new("bob"),
        value: 10,
    };
    assert_eq!(
        generate.describe(),
        "[GEN] generated \"10\" coins on \"bob\" account"
    );
}

#[test]
fn transaction_history_is_kept_in_order() {
    let genesis = test_genesis(&[("alice", 1000), ("bob", 1000)]);
    let txs = vec![
        Tx::Generate {
            to: Account::new("bob"),
            value: 10,
        },
        Tx::Transfer {
            from: Account::new("bob"),
            to: Account::new("alice"),
            value: 5,
        },
    ];
    let state = State::from_parts(genesis, txs.clone()).unwrap();
    assert_eq!(state.txs, txs);
}
