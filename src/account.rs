//! Accounts and their one-line record format `username,money,pickaxe_level`.
use vstd::prelude::*;
use crate::text::{
    append_decimal, decimal_digits, decimal_value, is_digit, lead_len,
    lemma_decimal_digits, lemma_split_join, lemma_split_no_sep, parse_decimal, parse_unsigned,
    split_fields, split_spec, trail_len, trim, trimmed,
};

verus! {

/// Balance of a freshly registered account.
pub const STARTING_MONEY: u32 = 100;

pub struct Account {
    pub username: String,
    pub money: u32,
    pub pickaxe_level: u8,
}

impl Clone for Account {
    fn clone(&self) -> (r: Account)
        ensures
            r.username@ == self.username@,
            r.money == self.money,
            r.pickaxe_level == self.pickaxe_level,
    {
        Account {
            username: self.username.clone(),
            money: self.money,
            pickaxe_level: self.pickaxe_level,
        }
    }
}

impl Account {
    pub fn new_account(username: String) -> (r: Account)
        ensures
            r.username == username,
            r.money == STARTING_MONEY,
            r.pickaxe_level == 1,
    {
        Account { username, money: STARTING_MONEY, pickaxe_level: 1 }
    }
}

/// A numeric field: its trimmed text parsed as an unsigned number up to `max`,
/// `default` where that fails.
pub open spec fn numeric_field(t: Seq<char>, max: nat, default: nat) -> nat {
    match parse_unsigned(trimmed(t), max) {
        Some(v) => v,
        None => default,
    }
}

/// The (username, money, pickaxe level) that a record line holds, if it has three fields.
pub open spec fn account_fields(s: Seq<char>) -> Option<(Seq<char>, nat, nat)> {
    let f = split_spec(s, ',');
    if f.len() == 3 {
        Some((f[0], numeric_field(f[1], u32::MAX as nat, 0), numeric_field(f[2], u8::MAX as nat, 1)))
    } else {
        None
    }
}

/// The record line of an account.
pub open spec fn account_line(username: Seq<char>, money: nat, level: nat) -> Seq<char> {
    username + seq![','] + decimal_digits(money) + seq![','] + decimal_digits(level)
}

/// Reads an account from its record line; a malformed number becomes 0 for the money
/// and 1 for the pickaxe level.
pub fn parse_account_string(account_string: &str) -> (r: Result<Account, &'static str>)
    ensures
        match r {
            Ok(a) => account_fields(account_string@) == Some(
                (a.username@, a.money as nat, a.pickaxe_level as nat),
            ),
            Err(e) => account_fields(account_string@) is None && e@ == "Invalid number of tokens"@,
        },
{
    let tokens = split_fields(account_string, ',');
    let ghost f = split_spec(account_string@, ',');
    if tokens.len() != 3 {
        return Err("Invalid number of tokens");
    }
    assert(tokens@[0]@ == f[0] && tokens@[1]@ == f[1] && tokens@[2]@ == f[2]);
    let username = tokens[0].clone();
    let money: u32 = match parse_decimal(trim(tokens[1].as_str()), u32::MAX) {
        Some(v) => v,
        None => 0,
    };
    let pickaxe_level: u8 = match parse_decimal(trim(tokens[2].as_str()), 255) {
        Some(v) => v as u8,
        None => 1,
    };
    Ok(Account { username, money, pickaxe_level })
}

/// The record line of `account`, without a line terminator.
pub fn account_record(account: &Account) -> (r: String)
    ensures
        r@ == account_line(account.username@, account.money as nat, account.pickaxe_level as nat),
{
    let mut out = account.username.clone();
    out.append(",");
    append_decimal(&mut out, account.money);
    out.append(",");
    append_decimal(&mut out, account.pickaxe_level as u32);
    proof {
        reveal_strlit(",");
        assert(out@ =~= account_line(
            account.username@,
            account.money as nat,
            account.pickaxe_level as nat,
        ));
    }
    out
}

proof fn lemma_digits_field(n: nat, max: nat)
    requires
        n <= max,
    ensures
        !decimal_digits(n).contains(','),
        numeric_field(decimal_digits(n), max, 0) == n,
        numeric_field(decimal_digits(n), max, 1) == n,
{
    lemma_decimal_digits(n);
    let d = decimal_digits(n);
    assert(!d.contains(',')) by {
        if d.contains(',') {
            let i = choose|i: int| 0 <= i < d.len() && d[i] == ',';
            assert(is_digit(d[i]));
        }
    }
    assert(is_digit(d[0]));
    assert(is_digit(d.last())) by {
        assert(d.last() == d[d.len() - 1]);
    }
    assert(lead_len(d) == 0);
    assert(trail_len(d.subrange(0, d.len() as int)) == 0) by {
        assert(d.subrange(0, d.len() as int) =~= d);
    }
    assert(d.subrange(0, d.len() as int) =~= d);
    assert(trimmed(d) =~= d);
    assert(parse_unsigned(d, max) == Some(decimal_value(d)));
}

/// Writing an account's record line and reading it back gives the same account,
/// whenever the username holds no comma.
pub proof fn lemma_account_round_trip(username: Seq<char>, money: u32, level: u8)
    requires
        !username.contains(','),
    ensures
        account_fields(account_line(username, money as nat, level as nat)) == Some(
            (username, money as nat, level as nat),
        ),
{
    let dm = decimal_digits(money as nat);
    let dl = decimal_digits(level as nat);
    lemma_digits_field(money as nat, u32::MAX as nat);
    lemma_digits_field(level as nat, u8::MAX as nat);
    lemma_split_join(username, dm + seq![','] + dl, ',');
    lemma_split_join(dm, dl, ',');
    lemma_split_no_sep(username, ',');
    lemma_split_no_sep(dm, ',');
    lemma_split_no_sep(dl, ',');
    assert(account_line(username, money as nat, level as nat) =~= username + seq![','] + (dm
        + seq![','] + dl));
    let f = split_spec(account_line(username, money as nat, level as nat), ',');
    assert(f =~= seq![username, dm, dl]);
}

} // verus!
