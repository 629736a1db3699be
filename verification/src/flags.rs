//! A configuration file as command-line arguments: every key of the file
//! becomes a flag of the same name, followed by its value.
use vstd::prelude::*;
use vstd::string::StringExecFns;

verus! {

/// A value of a configuration file.
#[derive(Debug)]
pub enum ConfigValue {
    Boolean(bool),
    Integer(i64),
    String(String),
    Array(Vec<ConfigValue>),
    /// Anything else: a float, a date or a table.
    Other,
}

/// Why a configuration file cannot be turned into arguments.
#[derive(Clone, Copy, Debug, PartialEq, Eq, Structural)]
pub enum ConfigError {
    /// A value is neither a boolean, an integer, a string nor an array.
    InvalidType,
    /// An element of an array is neither an integer nor a string.
    InvalidArrayElement,
}

/// The character of the decimal digit `digit`.
pub open spec fn digit_char(digit: int) -> char {
    if digit == 0 {
        '0'
    } else if digit == 1 {
        '1'
    } else if digit == 2 {
        '2'
    } else if digit == 3 {
        '3'
    } else if digit == 4 {
        '4'
    } else if digit == 5 {
        '5'
    } else if digit == 6 {
        '6'
    } else if digit == 7 {
        '7'
    } else if digit == 8 {
        '8'
    } else {
        '9'
    }
}

/// The decimal digits of `number`, without leading zeros.
pub open spec fn decimal_chars(number: nat) -> Seq<char>
    decreases number,
{
    if number < 10 {
        seq![digit_char(number as int)]
    } else {
        decimal_chars(number / 10).push(digit_char((number % 10) as int))
    }
}

/// `number` in decimal, with a minus sign if it is negative.
pub open spec fn integer_chars(number: i64) -> Seq<char> {
    if number < 0 {
        seq!['-'] + decimal_chars((-number) as nat)
    } else {
        decimal_chars(number as nat)
    }
}

/// The texts of a list of strings.
pub open spec fn texts_of(strings: Seq<String>) -> Seq<Seq<char>> {
    strings.map_values(|string: String| string@)
}

/// The text of an element of an array: an integer in decimal, or a string
/// as it is.
pub open spec fn spec_element(value: ConfigValue) -> Result<Seq<char>, ConfigError> {
    match value {
        ConfigValue::Integer(number) => Ok(integer_chars(number)),
        ConfigValue::String(text) => Ok(text@),
        _ => Err(ConfigError::InvalidArrayElement),
    }
}

/// The elements of an array joined by commas.
pub open spec fn spec_unpack_array_args(arr: Seq<ConfigValue>) -> Result<Seq<char>, ConfigError>
    decreases arr.len(),
{
    if arr.len() == 0 {
        Ok(Seq::empty())
    } else {
        match spec_unpack_array_args(arr.drop_last()) {
            Ok(joined) => match spec_element(arr.last()) {
                Ok(text) => Ok(
                    if arr.len() == 1 {
                        text
                    } else {
                        joined + seq![','] + text
                    },
                ),
                Err(error) => Err(error),
            },
            Err(error) => Err(error),
        }
    }
}

/// The arguments that stand for the key `key` with the value `val`: the flag
/// `--key` alone for `true`, nothing for `false`, and else the flag and the
/// value.
pub open spec fn spec_get_flag(key: Seq<char>, val: ConfigValue) -> Result<
    Seq<Seq<char>>,
    ConfigError,
> {
    let flag = seq!['-', '-'] + key;
    match val {
        ConfigValue::Boolean(set) => Ok(
            if set {
                seq![flag]
            } else {
                Seq::empty()
            },
        ),
        ConfigValue::Integer(number) => Ok(seq![flag, integer_chars(number)]),
        ConfigValue::String(text) => Ok(seq![flag, text@]),
        ConfigValue::Array(arr) => match spec_unpack_array_args(arr@) {
            Ok(joined) => Ok(seq![flag, joined]),
            Err(error) => Err(error),
        },
        ConfigValue::Other => Err(ConfigError::InvalidType),
    }
}

/// The arguments that stand for a list of keys and values, after the name
/// of the program.
pub open spec fn spec_config_args(program: Seq<char>, entries: Seq<(String, ConfigValue)>) -> Result<
    Seq<Seq<char>>,
    ConfigError,
>
    decreases entries.len(),
{
    if entries.len() == 0 {
        Ok(seq![program])
    } else {
        match spec_config_args(program, entries.drop_last()) {
            Ok(args) => match spec_get_flag(entries.last().0@, entries.last().1) {
                Ok(flag) => Ok(args + flag),
                Err(error) => Err(error),
            },
            Err(error) => Err(error),
        }
    }
}

/// The decimal digit `digit` as a string.
fn digit_str(digit: u8) -> (text: &'static str)
    requires
        digit < 10,
    ensures
        text@ == seq![digit_char(digit as int)],
{
    proof {
        reveal_strlit("0");
        reveal_strlit("1");
        reveal_strlit("2");
        reveal_strlit("3");
        reveal_strlit("4");
        reveal_strlit("5");
        reveal_strlit("6");
        reveal_strlit("7");
        reveal_strlit("8");
        reveal_strlit("9");
    }
    let text = if digit == 0 {
        "0"
    } else if digit == 1 {
        "1"
    } else if digit == 2 {
        "2"
    } else if digit == 3 {
        "3"
    } else if digit == 4 {
        "4"
    } else if digit == 5 {
        "5"
    } else if digit == 6 {
        "6"
    } else if digit == 7 {
        "7"
    } else if digit == 8 {
        "8"
    } else {
        "9"
    };
    assert(text@ =~= seq![digit_char(digit as int)]);
    text
}

/// Appends the decimal digits of `number` to `out`.
fn push_decimal(number: u64, out: &mut String)
    ensures
        final(out)@ == old(out)@ + decimal_chars(number as nat),
    decreases number,
{
    if number >= 10 {
        push_decimal(number / 10, out);
    }
    out.append(digit_str((number % 10) as u8));
    proof {
        if number >= 10 {
            assert(out@ =~= old(out)@ + decimal_chars(number as nat));
        } else {
            assert(out@ =~= old(out)@ + decimal_chars(number as nat));
        }
    }
}

/// An integer in decimal.
pub fn integer_to_string(number: i64) -> (text: String)
    ensures
        text@ == integer_chars(number),
{
    let mut text = String::new();
    if number < 0 {
        proof {
            reveal_strlit("-");
        }
        text.append("-");
        push_decimal((-(number as i128)) as u64, &mut text);
        proof {
            assert(text@ =~= integer_chars(number));
        }
    } else {
        push_decimal(number as u64, &mut text);
        proof {
            assert(text@ =~= integer_chars(number));
        }
    }
    text
}

/// Joins the elements of an array by commas. An element that is neither an
/// integer nor a string is an error.
pub fn unpack_array_args(arr: &Vec<ConfigValue>) -> (arg: Result<String, ConfigError>)
    ensures
        match spec_unpack_array_args(arr@) {
            Ok(joined) => arg matches Ok(text) && text@ == joined,
            Err(error) => arg matches Err(e) && e == error,
        },
{
    let mut arg = String::new();
    let mut i: usize = 0;
    while i < arr.len()
        invariant
            0 <= i <= arr.len(),
            spec_unpack_array_args(arr@.take(i as int)) == Ok::<Seq<char>, ConfigError>(arg@),
        decreases arr.len() - i,
    {
        proof {
            assert(arr@.take(i + 1).drop_last() =~= arr@.take(i as int));
            assert(arr@.take(i + 1).last() == arr@[i as int]);
            lemma_unpack_error(arr@, i + 1);
            reveal_strlit(",");
        }
        if i != 0 {
            arg.append(",");
        }
        match &arr[i] {
            ConfigValue::Integer(number) => {
                let text = integer_to_string(*number);
                arg.append(text.as_str());
            },
            ConfigValue::String(text) => {
                arg.append(text.as_str());
            },
            _ => {
                return Err(ConfigError::InvalidArrayElement);
            },
        }
        proof {
            let joined = spec_unpack_array_args(arr@.take(i as int))->Ok_0;
            let element = spec_element(arr@[i as int])->Ok_0;
            if i == 0 {
                assert(joined =~= Seq::<char>::empty());
                assert(arg@ =~= element);
            } else {
                assert(arg@ =~= joined + seq![','] + element);
            }
        }
        i = i + 1;
    }
    proof {
        assert(arr@.take(i as int) =~= arr@);
    }
    Ok(arg)
}

/// An error among the first elements of an array is the error of the whole.
proof fn lemma_unpack_error(arr: Seq<ConfigValue>, upto: int)
    requires
        0 <= upto <= arr.len(),
    ensures
        spec_unpack_array_args(arr.take(upto)) matches Err(error) ==> spec_unpack_array_args(arr)
            == Err::<Seq<char>, ConfigError>(error),
    decreases arr.len() - upto,
{
    if upto < arr.len() {
        assert(arr.take(upto + 1).drop_last() =~= arr.take(upto));
        lemma_unpack_error(arr, upto + 1);
    } else {
        assert(arr.take(upto) =~= arr);
    }
}

/// The arguments that stand for the key `key` with the value `val`.
pub fn get_flag(key: &str, val: &ConfigValue) -> (arg: Result<Vec<String>, ConfigError>)
    ensures
        match spec_get_flag(key@, *val) {
            Ok(expected) => arg matches Ok(args) && texts_of(args@) == expected,
            Err(error) => arg matches Err(e) && e == error,
        },
{
    proof {
        reveal_strlit("--");
    }
    let mut flag = String::from_str("--");
    flag.append(key);
    assert(flag@ =~= seq!['-', '-'] + key@);
    let mut arg: Vec<String> = Vec::new();
    match val {
        ConfigValue::Boolean(set) => {
            if *set {
                arg.push(flag);
                assert(texts_of(arg@) =~= seq![flag@]);
            } else {
                assert(texts_of(arg@) =~= Seq::<Seq<char>>::empty());
            }
        },
        ConfigValue::Integer(number) => {
            let text = integer_to_string(*number);
            arg.push(flag);
            arg.push(text);
            assert(texts_of(arg@) =~= seq![flag@, text@]);
        },
        ConfigValue::String(text) => {
            let copy = text.clone();
            arg.push(flag);
            arg.push(copy);
            assert(texts_of(arg@) =~= seq![flag@, text@]);
        },
        ConfigValue::Array(arr) => {
            match unpack_array_args(arr) {
                Ok(joined) => {
                    arg.push(flag);
                    arg.push(joined);
                    assert(texts_of(arg@) =~= seq![flag@, joined@]);
                },
                Err(error) => {
                    return Err(error);
                },
            }
        },
        ConfigValue::Other => {
            return Err(ConfigError::InvalidType);
        },
    }
    Ok(arg)
}

/// The command line that a configuration file stands for: the name of the
/// program, and then the arguments of each key and value in the order
/// given. The first value that cannot be turned into arguments decides the
/// error.
pub fn config_args(program: &str, entries: &Vec<(String, ConfigValue)>) -> (args: Result<
    Vec<String>,
    ConfigError,
>)
    ensures
        match spec_config_args(program@, entries@) {
            Ok(expected) => args matches Ok(list) && texts_of(list@) == expected,
            Err(error) => args matches Err(e) && e == error,
        },
{
    let mut clap_args: Vec<String> = Vec::new();
    clap_args.push(String::from_str(program));
    assert(texts_of(clap_args@) =~= seq![program@]);
    let mut i: usize = 0;
    while i < entries.len()
        invariant
            0 <= i <= entries.len(),
            spec_config_args(program@, entries@.take(i as int)) == Ok::<
                Seq<Seq<char>>,
                ConfigError,
            >(texts_of(clap_args@)),
        decreases entries.len() - i,
    {
        proof {
            assert(entries@.take(i + 1).drop_last() =~= entries@.take(i as int));
            assert(entries@.take(i + 1).last() == entries@[i as int]);
            lemma_config_args_error(program@, entries@, i + 1);
        }
        let entry = &entries[i];
        match get_flag(entry.0.as_str(), &entry.1) {
            Ok(mut flag) => {
                let ghost before = texts_of(clap_args@);
                let ghost added = texts_of(flag@);
                clap_args.append(&mut flag);
                assert(texts_of(clap_args@) =~= before + added);
            },
            Err(error) => {
                return Err(error);
            },
        }
        i = i + 1;
    }
    proof {
        assert(entries@.take(i as int) =~= entries@);
    }
    Ok(clap_args)
}

/// An error among the first entries of a file is the error of the whole.
proof fn lemma_config_args_error(
    program: Seq<char>,
    entries: Seq<(String, ConfigValue)>,
    upto: int,
)
    requires
        0 <= upto <= entries.len(),
    ensures
        spec_config_args(program, entries.take(upto)) matches Err(error) ==> spec_config_args(
            program,
            entries,
        ) == Err::<Seq<Seq<char>>, ConfigError>(error),
    decreases entries.len() - upto,
{
    if upto < entries.len() {
        assert(entries.take(upto + 1).drop_last() =~= entries.take(upto));
        lemma_config_args_error(program, entries, upto + 1);
    } else {
        assert(entries.take(upto) =~= entries);
    }
}

} // verus!
