use vstd::prelude::*;

verus! {

/// The most tokens that may be live at once, and so the number of identifiers.
pub const MAX_SUPPLY: u64 = 1000;

/// The decimal digit that stands for `d`.
pub open spec fn digit_char(d: nat) -> char {
    if d == 0 {
        '0'
    } else if d == 1 {
        '1'
    } else if d == 2 {
        '2'
    } else if d == 3 {
        '3'
    } else if d == 4 {
        '4'
    } else if d == 5 {
        '5'
    } else if d == 6 {
        '6'
    } else if d == 7 {
        '7'
    } else if d == 8 {
        '8'
    } else {
        '9'
    }
}

/// The identifier with serial number `serial`: the prefix `fan` followed by the
/// serial number as three decimal digits, zero-padded.
pub open spec fn id_text(serial: nat) -> Seq<char> {
    seq![
        'f',
        'a',
        'n',
        digit_char((serial / 100) % 10),
        digit_char((serial / 10) % 10),
        digit_char(serial % 10),
    ]
}

/// Whether `text` is the identifier of some serial number below the supply cap.
pub open spec fn is_token_id(text: Seq<char>) -> bool {
    exists|serial: nat| serial < MAX_SUPPLY && text == #[trigger] id_text(serial)
}

/// Distinct serial numbers below the supply cap have distinct identifiers.
pub proof fn lemma_id_text_injective(a: nat, b: nat)
    requires
        a < MAX_SUPPLY,
        b < MAX_SUPPLY,
        id_text(a) == id_text(b),
    ensures
        a == b,
{
    let x = id_text(a);
    let y = id_text(b);
    assert(x[3] == y[3]);
    assert(x[4] == y[4]);
    assert(x[5] == y[5]);
    assert((a / 100) % 10 == (b / 100) % 10);
    assert((a / 10) % 10 == (b / 10) % 10);
    assert(a % 10 == b % 10);
}

fn digit_str(d: u64) -> (text: &'static str)
    requires
        d < 10,
    ensures
        text@ == seq![digit_char(d as nat)],
{
    proof {
        reveal_strlit("0");
        reveal_strlit("1");
        reveal_strlit("2");
        reveal_strlit("3");
        reveal_strlit("4");
        reveal_strlit("5");
        reveal_strlit("6");
        reveal_strlit("7");
        reveal_strlit("8");
        reveal_strlit("9");
    }
    let text = if d == 0 {
        "0"
    } else if d == 1 {
        "1"
    } else if d == 2 {
        "2"
    } else if d == 3 {
        "3"
    } else if d == 4 {
        "4"
    } else if d == 5 {
        "5"
    } else if d == 6 {
        "6"
    } else if d == 7 {
        "7"
    } else if d == 8 {
        "8"
    } else {
        "9"
    };
    assert(text@ =~= seq![digit_char(d as nat)]);
    text
}

fn digit_value(c: char) -> (value: Option<u64>)
    ensures
        value matches Some(d) ==> d < 10 && c == digit_char(d as nat),
        value is None ==> forall|d: nat| d < 10 ==> c != #[trigger] digit_char(d),
{
    if c == '0' {
        Some(0)
    } else if c == '1' {
        Some(1)
    } else if c == '2' {
        Some(2)
    } else if c == '3' {
        Some(3)
    } else if c == '4' {
        Some(4)
    } else if c == '5' {
        Some(5)
    } else if c == '6' {
        Some(6)
    } else if c == '7' {
        Some(7)
    } else if c == '8' {
        Some(8)
    } else if c == '9' {
        Some(9)
    } else {
        None
    }
}

/// Writes out the identifier of a serial number.
pub fn token_id_for(serial: u64) -> (id: String)
    requires
        serial < MAX_SUPPLY,
    ensures
        id@ == id_text(serial as nat),
{
    proof {
        reveal_strlit("fan");
    }
    let mut id = String::from_str("fan");
    id.append(digit_str((serial / 100) % 10));
    id.append(digit_str((serial / 10) % 10));
    id.append(digit_str(serial % 10));
    assert(id@ =~= id_text(serial as nat));
    id
}

/// Reads the serial number back out of an identifier, if `id` is one.
pub fn parse_token_id(id: &String) -> (serial: Option<u64>)
    ensures
        serial matches Some(k) ==> k < MAX_SUPPLY && id@ == id_text(k as nat),
        serial is None ==> !is_token_id(id@),
{
    let text = id.as_str();
    if text.unicode_len() != 6 {
        return None;
    }
    if text.get_char(0) != 'f' || text.get_char(1) != 'a' || text.get_char(2) != 'n' {
        return None;
    }
    let hundreds = digit_value(text.get_char(3));
    let tens = digit_value(text.get_char(4));
    let units = digit_value(text.get_char(5));
    match (hundreds, tens, units) {
        (Some(h), Some(t), Some(u)) => {
            let k: u64 = h * 100 + t * 10 + u;
            assert(id@ =~= id_text(k as nat));
            Some(k)
        },
        _ => {
            assert forall|k: nat| k < MAX_SUPPLY implies id@ != #[trigger] id_text(k) by {
                if id@ == id_text(k) {
                    assert(id@[3] == digit_char((k / 100) % 10));
                    assert(id@[4] == digit_char((k / 10) % 10));
                    assert(id@[5] == digit_char(k % 10));
                }
            }
            None
        },
    }
}

/// The suffix that marks an account as one of the registry's own.
pub open spec fn home_suffix() -> Seq<char> {
    ".1000fans.near"@
}

/// The group an account stands for: what is left of its name after the home
/// suffix is taken off, and `default` for an account without that suffix.
pub open spec fn group_text(account: Seq<char>) -> Seq<char> {
    let n = account.len() as int;
    let m = home_suffix().len() as int;
    if n >= m && account.subrange(n - m, n) == home_suffix() {
        account.subrange(0, n - m)
    } else {
        "default"@
    }
}

/// Works out the group of an account from its name.
pub fn group_of_account(account: &String) -> (group: String)
    ensures
        group@ == group_text(account@),
{
    proof {
        reveal_strlit(".1000fans.near");
    }
    let text = account.as_str();
    let suffix = ".1000fans.near";
    let n = text.unicode_len();
    let m = suffix.unicode_len();
    if n >= m {
        let tail = String::from_str(text.substring_char(n - m, n));
        let wanted = String::from_str(suffix);
        if tail == wanted {
            return String::from_str(text.substring_char(0, n - m));
        }
    }
    String::from_str("default")
}

} // verus!
