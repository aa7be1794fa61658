use nebula::effect::Effect;
use nebula::identity::Identity;
use nebula::payment_splitter::DataKey;
use nebula::payment_splitter::Error;
use nebula::payment_splitter::PaymentSplitterContract;

fn someone(n: u128) -> Identity {
    Identity::account(0, n)
}

fn setup_test() -> (PaymentSplitterContract, Identity, Identity) {
    (
        PaymentSplitterContract::new(),
        someone(1),
        Identity::program(0, 2000),
    )
}

#[test]
fn cannot_initialize_twice() {
    let (mut client, admin, token) = setup_test();

    let recipient_1 = someone(10);
    let recipient_2 = someone(11);
    client
        .init(admin, token, vec![recipient_1, recipient_2])
        .unwrap();
    let r = client.init(admin, token, vec![recipient_1, recipient_2]);
    assert_eq!(Err(Error::AlreadyInitialized), r);
    assert_eq!(1, r.unwrap_err().code());
}

#[test]
fn splitter_needs_stakeholders() {
    let (mut client, admin, token) = setup_test();
    let r = client.init(admin, token, vec![]);
    assert_eq!(Err(Error::NoStakeholders), r);
    assert_eq!(5, r.unwrap_err().code());
    assert!(!client.initialized);
}

#[test]
fn splits_works() {
    let (mut client, token_admin, token) = setup_test();

    let recipient_1 = someone(10);
    let recipient_2 = someone(11);

    let effects = client
        .init(token_admin, token, vec![recipient_1, recipient_2])
        .unwrap();
    assert_eq!(vec![Effect::Authorize(token_admin)], effects);

    // The admin holds 100.
    let effects = client.split(50, 100).unwrap();

    assert_eq!(Effect::Authorize(token_admin), effects[0]);

    assert_eq!(
        effects,
        vec![
            Effect::Authorize(token_admin),
            Effect::Transfer {
                asset: token,
                from: token_admin,
                to: recipient_1,
                amount: 25
            },
            Effect::Transfer {
                asset: token,
                from: token_admin,
                to: recipient_2,
                amount: 25
            },
            Effect::SplitPaid {
                admin: token_admin,
                payout: 25
            },
        ]
    );
    let paid: i128 = effects
        .iter()
        .map(|e| match e {
            Effect::Transfer { amount, .. } => *amount,
            _ => 0,
        })
        .sum();
    assert_eq!(100 - paid, 50);
}

#[test]
fn splits_fails_if_not_enough_money() {
    let (mut client, token_admin, token) = setup_test();

    client
        .init(token_admin, token, vec![someone(10), someone(11)])
        .unwrap();

    // The admin holds 20.
    let r = client.split(50, 20);
    assert_eq!(Err(Error::InvalidAmount), r);
    assert_eq!(4, r.unwrap_err().code());
}

#[test]
fn split_rounds_down_and_checks_in_order() {
    let (mut client, admin, token) = setup_test();
    assert_eq!(Err(Error::InvalidAmount), client.split(0, 10));
    assert_eq!(Err(Error::InvalidAmount), client.split(-1, 10));
    let r = client.split(5, 10);
    assert_eq!(Err(Error::NotInitialized), r);
    assert_eq!(6, r.unwrap_err().code());
    client
        .init(admin, token, vec![someone(10), someone(11), someone(12)])
        .unwrap();
    let effects = client.split(10, 10).unwrap();
    assert_eq!(5, effects.len());
    assert_eq!(
        Effect::SplitPaid {
            admin,
            payout: 3
        },
        effects[4]
    );
    let effects = client.split(2, 10).unwrap();
    assert_eq!(
        Effect::Transfer {
            asset: token,
            from: admin,
            to: someone(12),
            amount: 0
        },
        effects[3]
    );
}

#[test]
fn splitter_places_have_their_numbers() {
    assert_eq!(0, DataKey::AlreadyInitialized.code());
    assert_eq!(1, DataKey::Admin.code());
    assert_eq!(2, DataKey::Token.code());
    assert_eq!(3, DataKey::PaymentSplit.code());
    assert_eq!(2, Error::Conversion.code());
    assert_eq!(3, Error::AdminKeyExpected.code());
    assert_eq!(7, Error::TokenKeyExpected.code());
    assert_eq!(8, Error::PaymentSplitExpected.code());
    assert_eq!(5, Error::NoStakeholders.code());
}
