use revenue_splitter::close_splitter::close_splitter;
use revenue_splitter::distribute_funds::{distribute_funds, Transfer};
use revenue_splitter::errors::RevenueError;
use revenue_splitter::initialize_splitter::initialize_splitter;
use revenue_splitter::states::{Recipient, RecipientInput, Splitter, WalletId};
use revenue_splitter::{close, distribute, initialize};

fn entry(wallet: u64, share: u16) -> RecipientInput {
    RecipientInput { wallet: WalletId(wallet), share }
}

fn make_splitter(authority: u64, entries: &[(u64, u16)]) -> Splitter {
    let inputs: Vec<RecipientInput> = entries.iter().map(|&(w, s)| entry(w, s)).collect();
    initialize_splitter(WalletId(authority), &inputs, 255).expect("valid configuration")
}

#[test]
fn create_stores_configuration() {
    let sp = make_splitter(9, &[(1, 3), (2, 5), (3, 7)]);
    assert_eq!(sp.authority, WalletId(9));
    assert_eq!(sp.total_shares, 15);
    assert_eq!(sp.bump, 255);
    assert_eq!(sp.recipients.len(), 3);
    assert_eq!(sp.recipients[0], Recipient { wallet: WalletId(1), share: 3 });
    assert_eq!(sp.recipients[2], Recipient { wallet: WalletId(3), share: 7 });
}

#[test]
fn create_rejects_empty_list() {
    let inputs: Vec<RecipientInput> = Vec::new();
    let r = initialize_splitter(WalletId(1), &inputs, 0);
    assert_eq!(r.unwrap_err(), RevenueError::NoRecipients);
}

#[test]
fn create_rejects_eleven_recipients() {
    let inputs: Vec<RecipientInput> = (0..11).map(|w| entry(w, 1)).collect();
    let r = initialize_splitter(WalletId(1), &inputs, 0);
    assert_eq!(r.unwrap_err(), RevenueError::TooManyRecipients);
}

#[test]
fn create_accepts_ten_recipients() {
    let inputs: Vec<RecipientInput> = (0..10).map(|w| entry(w, 2)).collect();
    let sp = initialize_splitter(WalletId(1), &inputs, 0).expect("ten recipients are allowed");
    assert_eq!(sp.total_shares, 20);
}

#[test]
fn create_rejects_zero_share() {
    let inputs = vec![entry(1, 4), entry(2, 0), entry(3, 4)];
    let r = initialize_splitter(WalletId(1), &inputs, 0);
    assert_eq!(r.unwrap_err(), RevenueError::ZeroShare);
}

#[test]
fn create_rejects_share_sum_overflow() {
    let inputs = vec![entry(1, 40000), entry(2, 40000)];
    let r = initialize_splitter(WalletId(1), &inputs, 0);
    assert_eq!(r.unwrap_err(), RevenueError::MathOverflow);
}

#[test]
fn create_checks_zero_share_before_sum_overflow() {
    // The zero-share check covers the whole list before shares are
    // summed: a zero share wins even when an earlier all-positive
    // prefix already overflows the sum.
    let inputs = vec![entry(1, 0), entry(2, 40000), entry(3, 40000)];
    let r = initialize_splitter(WalletId(1), &inputs, 0);
    assert_eq!(r.unwrap_err(), RevenueError::ZeroShare);
    let inputs = vec![entry(1, 40000), entry(2, 40000), entry(3, 0)];
    let r = initialize_splitter(WalletId(1), &inputs, 0);
    assert_eq!(r.unwrap_err(), RevenueError::ZeroShare);
}

#[test]
fn three_equal_shares_split_100() {
    let sp = make_splitter(9, &[(1, 1), (2, 1), (3, 1)]);
    let accounts = vec![WalletId(1), WalletId(2), WalletId(3)];
    let ts = distribute_funds(&sp, WalletId(9), 1100, 1000, &accounts).expect("distributes");
    assert_eq!(
        ts,
        vec![
            Transfer { to: WalletId(1), amount: 33 },
            Transfer { to: WalletId(2), amount: 33 },
            Transfer { to: WalletId(3), amount: 34 },
        ]
    );
}

#[test]
fn single_recipient_takes_whole_surplus() {
    let sp = make_splitter(9, &[(1, 7)]);
    let accounts = vec![WalletId(1)];
    let ts = distribute_funds(&sp, WalletId(9), 50, 0, &accounts).expect("distributes");
    assert_eq!(ts, vec![Transfer { to: WalletId(1), amount: 50 }]);
}

#[test]
fn weighted_split_is_exact() {
    let sp = make_splitter(9, &[(1, 3), (2, 5), (3, 7)]);
    let accounts = vec![WalletId(3), WalletId(2), WalletId(1)];
    let ts = distribute_funds(&sp, WalletId(9), 1000, 0, &accounts).expect("distributes");
    assert_eq!(ts[0], Transfer { to: WalletId(1), amount: 200 });
    assert_eq!(ts[1], Transfer { to: WalletId(2), amount: 333 });
    assert_eq!(ts[2], Transfer { to: WalletId(3), amount: 467 });
    let sum: u64 = ts.iter().map(|t| t.amount).sum();
    assert_eq!(sum, 1000);
}

#[test]
fn duplicate_wallet_is_paid_per_entry() {
    let sp = make_splitter(9, &[(1, 1), (1, 1)]);
    let accounts = vec![WalletId(1)];
    let ts = distribute_funds(&sp, WalletId(9), 100, 0, &accounts).expect("distributes");
    assert_eq!(
        ts,
        vec![
            Transfer { to: WalletId(1), amount: 50 },
            Transfer { to: WalletId(1), amount: 50 },
        ]
    );
}

#[test]
fn zero_amount_entries_are_skipped() {
    let sp = make_splitter(9, &[(1, 1), (2, 10000)]);
    let accounts = vec![WalletId(1), WalletId(2)];
    let ts = distribute_funds(&sp, WalletId(9), 5, 0, &accounts).expect("distributes");
    assert_eq!(ts, vec![Transfer { to: WalletId(2), amount: 5 }]);
}

#[test]
fn distribute_requires_surplus() {
    let sp = make_splitter(9, &[(1, 1)]);
    let accounts = vec![WalletId(1)];
    let r = distribute_funds(&sp, WalletId(9), 1000, 1000, &accounts);
    assert_eq!(r.unwrap_err(), RevenueError::NothingToDistribute);
    let r = distribute_funds(&sp, WalletId(9), 900, 1000, &accounts);
    assert_eq!(r.unwrap_err(), RevenueError::NothingToDistribute);
}

#[test]
fn distribute_rejects_other_callers() {
    let sp = make_splitter(9, &[(1, 1)]);
    let accounts = vec![WalletId(1)];
    let r = distribute_funds(&sp, WalletId(8), 2000, 1000, &accounts);
    assert_eq!(r.unwrap_err(), RevenueError::Unauthorized);
    // The authority check comes before the surplus check.
    let r = distribute_funds(&sp, WalletId(8), 1000, 1000, &accounts);
    assert_eq!(r.unwrap_err(), RevenueError::Unauthorized);
}

#[test]
fn distribute_rejects_missing_recipient_account() {
    let sp = make_splitter(9, &[(1, 1), (2, 1)]);
    let accounts = vec![WalletId(1)];
    let r = distribute_funds(&sp, WalletId(9), 100, 0, &accounts);
    assert_eq!(r.unwrap_err(), RevenueError::MissingRecipientAccount);
}

#[test]
fn distribute_revalidates_empty_recipients() {
    let sp = Splitter {
        authority: WalletId(9),
        recipients: Vec::new(),
        total_shares: 0,
        bump: 0,
    };
    let accounts = vec![WalletId(1)];
    let r = distribute_funds(&sp, WalletId(9), 100, 0, &accounts);
    assert_eq!(r.unwrap_err(), RevenueError::NoRecipients);
}

#[test]
fn distribute_checks_share_arithmetic() {
    // A corrupted record whose stored total does not cover its shares:
    // the widened part leaves u64 and the checked narrowing fails.
    let sp = Splitter {
        authority: WalletId(9),
        recipients: vec![
            Recipient { wallet: WalletId(1), share: 65535 },
            Recipient { wallet: WalletId(2), share: 1 },
        ],
        total_shares: 1,
        bump: 0,
    };
    let accounts = vec![WalletId(1), WalletId(2)];
    let r = distribute_funds(&sp, WalletId(9), u64::MAX, 0, &accounts);
    assert_eq!(r.unwrap_err(), RevenueError::MathOverflow);
}

#[test]
fn distribute_checks_division_by_zero() {
    let sp = Splitter {
        authority: WalletId(9),
        recipients: vec![
            Recipient { wallet: WalletId(1), share: 0 },
            Recipient { wallet: WalletId(2), share: 0 },
        ],
        total_shares: 0,
        bump: 0,
    };
    let accounts = vec![WalletId(1), WalletId(2)];
    let r = distribute_funds(&sp, WalletId(9), 100, 0, &accounts);
    assert_eq!(r.unwrap_err(), RevenueError::MathOverflow);
}

#[test]
fn distribute_is_repeatable() {
    let sp = make_splitter(9, &[(1, 2), (2, 3)]);
    let accounts = vec![WalletId(1), WalletId(2)];
    let reserve: u64 = 890_880;

    // Surplus of 100 above the reserve is paid out in full.
    let ts = distribute_funds(&sp, WalletId(9), reserve + 100, reserve, &accounts)
        .expect("distributes");
    let sum: u64 = ts.iter().map(|t| t.amount).sum();
    assert_eq!(sum, 100);

    // The balance now sits at the reserve; an immediate repeat fails.
    let r = distribute_funds(&sp, WalletId(9), reserve, reserve, &accounts);
    assert_eq!(r.unwrap_err(), RevenueError::NothingToDistribute);

    // New surplus accrues; the next call exhausts exactly that.
    let ts = distribute_funds(&sp, WalletId(9), reserve + 57, reserve, &accounts)
        .expect("distributes");
    let sum: u64 = ts.iter().map(|t| t.amount).sum();
    assert_eq!(sum, 57);
}

#[test]
fn fresh_splitter_has_nothing_to_distribute() {
    let inputs = vec![entry(1, 1), entry(2, 9)];
    let sp = initialize_splitter(WalletId(9), &inputs, 254).expect("valid configuration");
    let accounts = vec![WalletId(1), WalletId(2)];
    // Create moves no funds: the fresh record holds exactly its reserve.
    let r = distribute_funds(&sp, WalletId(9), 1_500_000, 1_500_000, &accounts);
    assert_eq!(r.unwrap_err(), RevenueError::NothingToDistribute);
}

#[test]
fn close_succeeds_only_at_reserve() {
    let sp = make_splitter(9, &[(1, 1)]);
    let refund = close_splitter(&sp, WalletId(9), 1000, 1000).expect("closes");
    assert_eq!(refund, 1000);
    let r = close_splitter(&sp, WalletId(9), 1001, 1000);
    assert_eq!(r.unwrap_err(), RevenueError::SplitterHasFunds);
}

#[test]
fn close_rejects_other_callers() {
    let sp = make_splitter(9, &[(1, 1)]);
    let r = close_splitter(&sp, WalletId(8), 1000, 1000);
    assert_eq!(r.unwrap_err(), RevenueError::Unauthorized);
    let r = close_splitter(&sp, WalletId(8), 2000, 1000);
    assert_eq!(r.unwrap_err(), RevenueError::Unauthorized);
}

#[test]
fn entry_points_delegate() {
    let inputs = vec![entry(1, 1), entry(2, 1)];
    let sp = initialize(WalletId(9), &inputs, 7).expect("valid configuration");
    assert_eq!(sp.total_shares, 2);
    let accounts = vec![WalletId(1), WalletId(2)];
    let ts = distribute(&sp, WalletId(9), 101, 1, &accounts).expect("distributes");
    assert_eq!(
        ts,
        vec![
            Transfer { to: WalletId(1), amount: 50 },
            Transfer { to: WalletId(2), amount: 50 },
        ]
    );
    let refund = close(&sp, WalletId(9), 1, 1).expect("closes");
    assert_eq!(refund, 1);
}

#[test]
fn error_messages_match_codes() {
    assert_eq!(RevenueError::NoRecipients.message(), "No recipients provided");
    assert_eq!(RevenueError::Unauthorized.message(), "Unauthorized");
    assert_eq!(
        RevenueError::SplitterHasFunds.message(),
        "Splitter still has funds; distribute before closing"
    );
}
