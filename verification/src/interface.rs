//! What the screens need from the engine: numbers with thousands
//! separators, and the steps of the menus.

use vstd::prelude::*;

verus! {

/// The character of a decimal digit.
pub open spec fn digit_char(digit: nat) -> char {
    if digit == 0 {
        '0'
    } else if digit == 1 {
        '1'
    } else if digit == 2 {
        '2'
    } else if digit == 3 {
        '3'
    } else if digit == 4 {
        '4'
    } else if digit == 5 {
        '5'
    } else if digit == 6 {
        '6'
    } else if digit == 7 {
        '7'
    } else if digit == 8 {
        '8'
    } else {
        '9'
    }
}

/// A natural number in decimal digits, without leading zeros.
pub open spec fn decimal(n: nat) -> Seq<char>
    decreases n,
{
    if n < 10 {
        seq![digit_char(n)]
    } else {
        decimal(n / 10).push(digit_char(n % 10))
    }
}

/// A whole number as it is written: in decimal digits, after a minus sign
/// where it is negative.
pub open spec fn written(n: int) -> Seq<char> {
    if n < 0 {
        seq!['-'] + decimal((-n) as nat)
    } else {
        decimal(n as nat)
    }
}

/// A text with a comma before every group of three characters, counted
/// from the end, that has a character before it.
pub open spec fn grouped(text: Seq<char>) -> Seq<char>
    decreases text.len(),
{
    if text.len() <= 3 {
        text
    } else {
        grouped(text.take(text.len() - 3)) + seq![','] + text.skip(text.len() - 3)
    }
}

/// The three digits of a number below 1000, with leading zeros.
pub open spec fn three_digits(n: nat) -> Seq<char> {
    seq![digit_char(n / 100), digit_char(n / 10 % 10), digit_char(n % 10)]
}

/// A number has at least one digit, and up to three below 1000.
pub proof fn lemma_decimal_len(n: nat)
    ensures
        decimal(n).len() >= 1,
        n < 1000 ==> decimal(n).len() <= 3,
    decreases n,
{
    if n >= 10 {
        lemma_decimal_len(n / 10);
        if n < 1000 && n >= 100 {
            lemma_decimal_len(n / 100);
            assert(decimal(n / 10) == decimal(n / 10 / 10).push(digit_char(n / 10 % 10)));
        }
    }
}

/// From 1000 on, the digits of a number are those of its thousands, then
/// the three digits of the rest.
pub proof fn lemma_decimal_thousands(n: nat)
    requires
        n >= 1000,
    ensures
        decimal(n) == decimal(n / 1000) + three_digits(n % 1000),
{
    let tens = n / 10;
    let hundreds = n / 100;
    assert(decimal(n) == decimal(tens).push(digit_char(n % 10)));
    assert(tens / 10 == hundreds);
    assert(decimal(tens) == decimal(hundreds).push(digit_char(tens % 10)));
    assert(hundreds / 10 == n / 1000);
    assert(decimal(hundreds) == decimal(n / 1000).push(digit_char(hundreds % 10)));
    assert(n % 1000 / 100 == hundreds % 10);
    assert(n % 1000 / 10 % 10 == tens % 10);
    assert(n % 1000 % 10 == n % 10);
    assert(decimal(n) =~= decimal(n / 1000) + three_digits(n % 1000));
}

/// Three characters after a text that is not empty are one group more.
pub proof fn lemma_grouped_group(text: Seq<char>, group: Seq<char>)
    requires
        text.len() >= 1,
        group.len() == 3,
    ensures
        grouped(text + group) == grouped(text) + seq![','] + group,
{
    let whole = text + group;
    assert(whole.take(whole.len() - 3) =~= text);
    assert(whole.skip(whole.len() - 3) =~= group);
}

/// A character before a text that is not empty stands before its groups,
/// and before a comma where the text is made of whole groups.
pub proof fn lemma_grouped_lead(lead: char, text: Seq<char>)
    requires
        text.len() >= 1,
    ensures
        grouped(seq![lead] + text) == if text.len() % 3 == 0 {
            seq![lead, ','] + grouped(text)
        } else {
            seq![lead] + grouped(text)
        },
    decreases text.len(),
{
    let whole = seq![lead] + text;
    if text.len() <= 2 {
    } else if text.len() == 3 {
        assert(whole.take(whole.len() - 3) =~= seq![lead]);
        assert(whole.skip(whole.len() - 3) =~= text);
        assert(grouped(seq![lead]) == seq![lead]);
        assert(grouped(whole) =~= seq![lead, ','] + grouped(text));
    } else {
        let front = text.take(text.len() - 3);
        let back = text.skip(text.len() - 3);
        assert(whole.take(whole.len() - 3) =~= seq![lead] + front);
        assert(whole.skip(whole.len() - 3) =~= back);
        lemma_grouped_lead(lead, front);
        if text.len() % 3 == 0 {
            assert(grouped(whole) =~= seq![lead, ','] + grouped(text));
        } else {
            assert(grouped(whole) =~= seq![lead] + grouped(text));
        }
    }
}

/// The text of a decimal digit.
fn digit_text(digit: u64) -> (text: &'static str)
    requires
        digit < 10,
    ensures
        text@ == seq![digit_char(digit as nat)],
{
    proof {
        reveal_strlit("0");
        reveal_strlit("1");
        reveal_strlit("2");
        reveal_strlit("3");
        reveal_strlit("4");
        reveal_strlit("5");
        reveal_strlit("6");
        reveal_strlit("7");
        reveal_strlit("8");
        reveal_strlit("9");
    }
    let text = match digit {
        0 => "0",
        1 => "1",
        2 => "2",
        3 => "3",
        4 => "4",
        5 => "5",
        6 => "6",
        7 => "7",
        8 => "8",
        _ => "9",
    };
    assert(text@ =~= seq![digit_char(digit as nat)]);
    text
}

/// The number of decimal digits of a number.
fn digit_count(n: u64) -> (count: u64)
    ensures
        count == decimal(n as nat).len(),
{
    let mut count: u64 = 1;
    let mut rest: u64 = n;
    while rest >= 10
        invariant
            decimal(n as nat).len() == decimal(rest as nat).len() + count - 1,
            1 <= count,
            count + rest <= n + 1,
        decreases rest,
    {
        rest = rest / 10;
        count += 1;
    }
    count
}

/// The decimal digits of a number.
fn decimal_text(n: u64) -> (text: String)
    ensures
        text@ == decimal(n as nat),
    decreases n,
{
    if n < 10 {
        String::from_str(digit_text(n))
    } else {
        let mut text = decimal_text(n / 10);
        text.append(digit_text(n % 10));
        text
    }
}

/// A natural number with a comma before every group of three digits.
pub fn commas_unsigned(n: u64) -> (text: String)
    ensures
        text@ == grouped(decimal(n as nat)),
    decreases n,
{
    if n < 1000 {
        proof {
            lemma_decimal_len(n as nat);
        }
        decimal_text(n)
    } else {
        let mut text = commas_unsigned(n / 1000);
        let rest: u64 = n % 1000;
        proof {
            reveal_strlit(",");
            lemma_decimal_thousands(n as nat);
            lemma_decimal_len(n as nat / 1000);
            lemma_grouped_group(decimal(n as nat / 1000), three_digits(rest as nat));
        }
        let ghost front = text@;
        text.append(",");
        text.append(digit_text(rest / 100));
        text.append(digit_text(rest / 10 % 10));
        text.append(digit_text(rest % 10));
        assert(text@ =~= front + seq![','] + three_digits(rest as nat));
        text
    }
}

/// A whole number as it is written, with a comma before every group of
/// three characters. The minus sign counts as a character: a comma follows
/// it where the digits are whole groups.
pub fn commas_signed(n: i64) -> (text: String)
    ensures
        text@ == grouped(written(n as int)),
{
    if n >= 0 {
        commas_unsigned(n as u64)
    } else {
        let size: u64 = if n == i64::MIN {
            0x8000_0000_0000_0000
        } else {
            (-n) as u64
        };
        let digits = commas_unsigned(size);
        proof {
            reveal_strlit("-");
            reveal_strlit("-,");
            lemma_decimal_len(size as nat);
            lemma_grouped_lead('-', decimal(size as nat));
        }
        let lead = if digit_count(size) % 3 == 0 {
            String::from_str("-,")
        } else {
            String::from_str("-")
        };
        let text = lead.concat(digits.as_str());
        assert(text@ =~= grouped(written(n as int)));
        text
    }
}

/// Numbers that can be written with thousands separators.
pub trait Comma {
    /// The number as it is written without separators.
    spec fn shown(&self) -> Seq<char>;

    /// The number with a comma before every group of three characters,
    /// counted from the end.
    fn commas(&self) -> (text: String)
        ensures
            text@ == grouped(self.shown()),
    ;
}

impl Comma for u8 {
    open spec fn shown(&self) -> Seq<char> {
        written(*self as int)
    }

    fn commas(&self) -> (text: String) {
        commas_unsigned(*self as u64)
    }
}

impl Comma for u16 {
    open spec fn shown(&self) -> Seq<char> {
        written(*self as int)
    }

    fn commas(&self) -> (text: String) {
        commas_unsigned(*self as u64)
    }
}

impl Comma for u32 {
    open spec fn shown(&self) -> Seq<char> {
        written(*self as int)
    }

    fn commas(&self) -> (text: String) {
        commas_unsigned(*self as u64)
    }
}

impl Comma for u64 {
    open spec fn shown(&self) -> Seq<char> {
        written(*self as int)
    }

    fn commas(&self) -> (text: String) {
        commas_unsigned(*self)
    }
}

impl Comma for i8 {
    open spec fn shown(&self) -> Seq<char> {
        written(*self as int)
    }

    fn commas(&self) -> (text: String) {
        commas_signed(*self as i64)
    }
}

impl Comma for i16 {
    open spec fn shown(&self) -> Seq<char> {
        written(*self as int)
    }

    fn commas(&self) -> (text: String) {
        commas_signed(*self as i64)
    }
}

impl Comma for i32 {
    open spec fn shown(&self) -> Seq<char> {
        written(*self as int)
    }

    fn commas(&self) -> (text: String) {
        commas_signed(*self as i64)
    }
}

impl Comma for i64 {
    open spec fn shown(&self) -> Seq<char> {
        written(*self as int)
    }

    fn commas(&self) -> (text: String) {
        commas_signed(*self)
    }
}

/// A key pressed in a menu.
#[derive(Clone, Copy, PartialEq, Eq, Structural, Debug)]
pub enum MenuKey {
    Enter,
    ArrowUp,
    ArrowDown,
    Home,
    End,
    Char(char),
    Other,
}

/// What a key does to a menu.
#[derive(Clone, Copy, PartialEq, Eq, Structural, Debug)]
pub enum MenuStep {
    /// The entry is chosen.
    Chosen(usize),
    /// The mark stands at the entry; the menu goes on.
    Moved(usize),
}

/// The step that a key makes in a menu whose mark stands at `selection` and
/// whose last entry is `last_index`: Enter or `e` chooses; the arrows, or
/// `w` and `s`, move the mark by one entry, not past either end; Home and
/// End move it to the ends; any other key leaves it.
pub open spec fn menu_step_for(selection: usize, last_index: usize, key: MenuKey) -> MenuStep {
    let up: usize = if selection == 0 {
        0
    } else {
        (selection - 1) as usize
    };
    let down: usize = if selection < last_index {
        (selection + 1) as usize
    } else {
        last_index
    };
    match key {
        MenuKey::Enter => MenuStep::Chosen(selection),
        MenuKey::ArrowUp => MenuStep::Moved(up),
        MenuKey::ArrowDown => MenuStep::Moved(down),
        MenuKey::Home => MenuStep::Moved(0),
        MenuKey::End => MenuStep::Moved(last_index),
        MenuKey::Char(letter) => if letter == 'e' {
            MenuStep::Chosen(selection)
        } else if letter == 'w' {
            MenuStep::Moved(up)
        } else if letter == 's' {
            MenuStep::Moved(down)
        } else {
            MenuStep::Moved(selection)
        },
        MenuKey::Other => MenuStep::Moved(selection),
    }
}

/// The step that a key makes in a menu.
pub fn menu_step(selection: usize, last_index: usize, key: MenuKey) -> (step: MenuStep)
    ensures
        step == menu_step_for(selection, last_index, key),
        selection <= last_index ==> match step {
            MenuStep::Chosen(entry) => entry <= last_index,
            MenuStep::Moved(entry) => entry <= last_index,
        },
{
    let up: usize = selection.saturating_sub(1);
    let down: usize = if selection < last_index {
        selection + 1
    } else {
        last_index
    };
    match key {
        MenuKey::Enter => MenuStep::Chosen(selection),
        MenuKey::ArrowUp => MenuStep::Moved(up),
        MenuKey::ArrowDown => MenuStep::Moved(down),
        MenuKey::Home => MenuStep::Moved(0),
        MenuKey::End => MenuStep::Moved(last_index),
        MenuKey::Char(letter) => {
            if letter == 'e' {
                MenuStep::Chosen(selection)
            } else if letter == 'w' {
                MenuStep::Moved(up)
            } else if letter == 's' {
                MenuStep::Moved(down)
            } else {
                MenuStep::Moved(selection)
            }
        },
        MenuKey::Other => MenuStep::Moved(selection),
    }
}

/// What `str::trim` makes of a text: the text without the whitespace at its
/// ends.
pub uninterp spec fn trimmed(text: Seq<char>) -> Seq<char>;

/// What `str::to_lowercase` makes of a text: the text in lower case.
pub uninterp spec fn lowercased(text: Seq<char>) -> Seq<char>;

/// Calls `str::trim`.
///
/// Trusted: the result is a function of the text alone.
#[verifier::external_body]
fn trim<'a>(text: &'a str) -> (short: &'a str)
    ensures
        short@ == trimmed(text@),
{
    text.trim()
}

/// Calls `str::to_lowercase`.
///
/// Trusted: the result is a function of the text alone.
#[verifier::external_body]
fn lowercase(text: &str) -> (lower: String)
    ensures
        lower@ == lowercased(text@),
{
    text.to_lowercase()
}

/// The first place of a text among the choices.
pub fn position(choices: &Vec<String>, needle: &str) -> (place: Option<usize>)
    ensures
        match place {
            Some(index) => index < choices@.len() && choices@[index as int]@ == needle@ && forall|
                i: int,
            |
                0 <= i < index ==> (#[trigger] choices@[i])@ != needle@,
            None => forall|i: int| 0 <= i < choices@.len() ==> (#[trigger] choices@[i])@ != needle@,
        },
{
    let key = String::from_str(needle);
    let mut index: usize = 0;
    while index < choices.len()
        invariant
            index <= choices@.len(),
            key@ == needle@,
            forall|i: int| 0 <= i < index ==> (#[trigger] choices@[i])@ != needle@,
        decreases choices@.len() - index,
    {
        if choices[index] == key {
            return Some(index);
        }
        index += 1;
    }
    None
}

/// The choice that a typed line names: the first choice that equals the
/// line without the whitespace at its ends, in lower case. `None` where the
/// line names no choice.
pub fn read_choice(choices: &Vec<String>, input: &str) -> (place: Option<usize>)
    ensures
        match place {
            Some(index) => index < choices@.len() && choices@[index as int]@ == lowercased(
                trimmed(input@),
            ) && forall|i: int|
                0 <= i < index ==> (#[trigger] choices@[i])@ != lowercased(trimmed(input@)),
            None => forall|i: int|
                0 <= i < choices@.len() ==> (#[trigger] choices@[i])@ != lowercased(
                    trimmed(input@),
                ),
        },
{
    let typed = lowercase(trim(input));
    position(choices, typed.as_str())
}

} // verus!
