//! The reading source: where a sensor's device file lies, and how the two
//! lines read from it become a `Temperature`.

use crate::measurement::{lemma_decimal_text_chars, Record, INVALID_PAYLOAD};
use crate::temperature::{Reading, Temperature, RANGE_MAX, RANGE_MIN};
use crate::text::{
    chars_of, decimal_text, is_digit, parse_decimal, parse_i32_spec, push_decimal, texts,
    NumberError,
};
use crate::timestamp::CivilTime;
use regex::Regex;
use vstd::prelude::*;
use vstd::string::StringExecFns;

verus! {

/// `regex::Regex`, a compiled regular expression. Nothing of what it holds
/// is known here but the text it was compiled from.
#[verifier::external_type_specification]
#[verifier::external_body]
pub struct ExRegex(regex::Regex);

/// `regex::Error`, what `regex::Regex::new` gives for a text that it does
/// not compile. Nothing of what it holds is known here.
#[verifier::external_type_specification]
#[verifier::external_body]
pub struct ExRegexError(regex::Error);

/// The text that a compiled regular expression was compiled from, as
/// `regex::Regex::as_str` returns it.
pub uninterp spec fn pattern_of(re: Regex) -> Seq<char>;

/// Whether `pattern` is the text of a regular expression that
/// `regex::Regex::new` compiles.
pub uninterp spec fn pattern_compiles(pattern: Seq<char>) -> bool;

/// Whether the regular expression written `pattern` matches anywhere in
/// `haystack`, as `regex::Regex::is_match` decides it.
pub uninterp spec fn regex_is_match(pattern: Seq<char>, haystack: Seq<char>) -> bool;

/// What the leftmost match of the regular expression written `pattern` in
/// `haystack` captured in its group number `group`, as `regex::Regex::captures`
/// followed by `regex::Captures::get` gives it: `None` without a match,
/// `Some(None)` where the group took no part in the match.
pub uninterp spec fn regex_group(pattern: Seq<char>, haystack: Seq<char>, group: int) -> Option<
    Option<Seq<char>>,
>;

/// Calls `regex::Regex::new`. A regular expression that was compiled keeps the
/// text it was compiled from; which texts compile is left to the crate.
#[verifier::external_body]
fn compile(pattern: &str) -> (r: Result<Regex, regex::Error>)
    ensures
        r is Ok == pattern_compiles(pattern@),
        r matches Ok(re) ==> pattern_of(re) == pattern@,
{
    Regex::new(pattern)
}

/// Calls `regex::Regex::is_match`, which searches the whole of `haystack`
/// from its start.
#[verifier::external_body]
fn is_match(re: &Regex, haystack: &str) -> (matched: bool)
    ensures
        matched == regex_is_match(pattern_of(*re), haystack@),
{
    re.is_match(haystack)
}

/// Calls `regex::Regex::captures` and, on a match, `regex::Captures::get`,
/// and copies the captured text out.
#[verifier::external_body]
fn capture(re: &Regex, haystack: &str, group: usize) -> (captured: Option<Option<String>>)
    ensures
        captured_text(captured) == regex_group(pattern_of(*re), haystack@, group as int),
{
    match re.captures(haystack) {
        None => None,
        Some(caps) => Some(
            match caps.get(group) {
                None => None,
                Some(m) => Some(m.as_str().to_owned()),
            },
        ),
    }
}

/// The characters of what a search captured.
pub open spec fn captured_text(captured: Option<Option<String>>) -> Option<Option<Seq<char>>> {
    match captured {
        None => None,
        Some(None) => Some(None),
        Some(Some(text)) => Some(Some(text@)),
    }
}

/// The first line of a device file tells whether the checksum holds: nine bytes
/// in hexadecimal, then the checksum and `YES`.
pub const CRC_PATTERN: &'static str = "([0-9a-f]{2} ){9}: crc=[0-9a-f]{2} YES";

/// The second line carries the reading: nine bytes in hexadecimal, then `t=`
/// and the number, which is the second group.
pub const CAP_PATTERN: &'static str = "([0-9a-f]{2} ){9}t=([+-]?[0-9]+)";

/// The directory under which the kernel lists the devices of the bus.
pub const DEVICES_PATH: &'static str = "/sys/bus/w1/devices/";

/// Where the devices are found below a home directory, on a development
/// machine.
pub const HOME_DEVICES_PATH: &'static str = "/mnt/sys/bus/w1/devices/";

/// The name of the file inside a device's directory that yields a reading.
pub const DEVICE_FILE: &'static str = "/w1_slave";

/// Why a sensor could not be set up.
#[derive(Clone, Copy, Debug, PartialEq, Eq, Structural)]
pub enum SensorError {
    /// The pattern for the checksum line did not compile.
    CrcPattern,
    /// The pattern for the temperature line did not compile.
    CapPattern,
}

/// The message that goes with a `NumberError`.
pub open spec fn number_error_text(e: NumberError) -> Seq<char> {
    match e {
        NumberError::Empty => "cannot parse integer from empty string"@,
        NumberError::InvalidDigit => "invalid digit found in string"@,
        NumberError::TooLarge => "number too large to fit in target type"@,
        NumberError::TooSmall => "number too small to fit in target type"@,
    }
}

/// The reading that the captured number `text` stands for: a value within
/// the rated range, or an error that names what was wrong.
pub open spec fn reading_of_number(text: Seq<char>) -> Reading {
    match parse_i32_spec(text) {
        Ok(v) => if RANGE_MIN <= v <= RANGE_MAX {
            Reading::Value(v)
        } else {
            Reading::Error(
                "Measured temperature "@ + decimal_text(v) + " is outside of sensor range"@,
            )
        },
        Err(e) => Reading::Error(
            "Couldn't parse number string=\""@ + text + "\" err=\""@ + number_error_text(e)
                + "\""@,
        ),
    }
}

/// The reading that two lines of a device file stand for. `crc_line` and
/// `temp_line` are the lines as far as they could be read, `crc_ok` tells
/// whether the first says that the checksum holds, and `captured` is what
/// the search for the number found in the second.
pub open spec fn reading_of_lines(
    crc_line: Option<Seq<char>>,
    crc_ok: bool,
    temp_line: Option<Seq<char>>,
    captured: Option<Option<Seq<char>>>,
) -> Reading {
    match crc_line {
        None => Reading::Error("crc line couldn't be read"@),
        Some(first) => if !crc_ok {
            Reading::Error("crc failed line=\""@ + first + "\""@)
        } else {
            match temp_line {
                None => Reading::Error("temperature line couldn't be read"@),
                Some(second) => match captured {
                    None => Reading::Error(
                        "Couldn't parse temperature line \""@ + second + "\""@,
                    ),
                    Some(None) => Reading::Error(
                        "Regular expression value 2 was invalid \""@ + second + "\""@,
                    ),
                    Some(Some(text)) => reading_of_number(text),
                },
            }
        },
    }
}

/// Whether a text holds no line feed.
pub open spec fn is_one_line(text: Seq<char>) -> bool {
    !text.contains('\n')
}

/// Two texts without a line feed make one without a line feed.
pub proof fn lemma_one_line_concat(a: Seq<char>, b: Seq<char>)
    requires
        is_one_line(a),
        is_one_line(b),
    ensures
        is_one_line(a + b),
{
    if (a + b).contains('\n') {
        let i = choose|i: int| 0 <= i < (a + b).len() && (a + b)[i] == '\n';
        if i < a.len() {
            assert(a[i] == '\n');
        } else {
            assert(b[i - a.len()] == '\n');
        }
    }
}

/// A text of one line that begins with a letter other than `i` and does not
/// end in a carriage return can be recorded as the text of an error and read
/// back: it is neither a number nor the word for a missing reading.
pub proof fn lemma_message_is_persistable(time: CivilTime, text: Seq<char>)
    requires
        time.is_valid(),
        text.len() > 0,
        'A' <= text[0] <= 'Z' || 'a' <= text[0] <= 'z',
        text[0] != 'i',
        is_one_line(text),
        text.last() != '\r',
    ensures
        (Record { time, temp: Reading::Error(text) }).is_persistable(),
{
    reveal_strlit("invalid");
    assert(INVALID_PAYLOAD@[0] == 'i');
    assert(!is_digit(text[0]));
}

/// Whatever reading the lines of a device file stand for, taken at a valid
/// time, can be written to the log and read back, as long as the lines and
/// what was captured in them are texts of one line.
pub proof fn lemma_readings_are_persistable(
    time: CivilTime,
    crc_line: Option<Seq<char>>,
    crc_ok: bool,
    temp_line: Option<Seq<char>>,
    captured: Option<Option<Seq<char>>>,
)
    requires
        time.is_valid(),
        crc_line matches Some(first) ==> is_one_line(first),
        temp_line matches Some(second) ==> is_one_line(second),
        captured matches Some(Some(text)) ==> is_one_line(text),
    ensures
        (Record {
            time,
            temp: reading_of_lines(crc_line, crc_ok, temp_line, captured),
        }).is_persistable(),
{
    let quote = "\""@;
    reveal_strlit("\"");
    match crc_line {
        None => {
            reveal_strlit("crc line couldn't be read");
            lemma_message_is_persistable(time, "crc line couldn't be read"@);
        },
        Some(first) => if !crc_ok {
            let before = "crc failed line=\""@;
            reveal_strlit("crc failed line=\"");
            lemma_one_line_concat(before, first);
            lemma_one_line_concat(before + first, quote);
            lemma_message_is_persistable(time, before + first + quote);
        } else {
            match temp_line {
                None => {
                    reveal_strlit("temperature line couldn't be read");
                    lemma_message_is_persistable(time, "temperature line couldn't be read"@);
                },
                Some(second) => match captured {
                    None => {
                        let before = "Couldn't parse temperature line \""@;
                        reveal_strlit("Couldn't parse temperature line \"");
                        lemma_one_line_concat(before, second);
                        lemma_one_line_concat(before + second, quote);
                        lemma_message_is_persistable(time, before + second + quote);
                    },
                    Some(None) => {
                        let before = "Regular expression value 2 was invalid \""@;
                        reveal_strlit("Regular expression value 2 was invalid \"");
                        lemma_one_line_concat(before, second);
                        lemma_one_line_concat(before + second, quote);
                        lemma_message_is_persistable(time, before + second + quote);
                    },
                    Some(Some(text)) => {
                        lemma_number_readings_are_persistable(time, text);
                    },
                },
            }
        },
    }
}

/// Whatever reading a captured number of one line stands for, taken at a
/// valid time, can be written to the log and read back.
pub proof fn lemma_number_readings_are_persistable(time: CivilTime, text: Seq<char>)
    requires
        time.is_valid(),
        is_one_line(text),
    ensures
        (Record { time, temp: reading_of_number(text) }).is_persistable(),
{
    let quote = "\""@;
    reveal_strlit("\"");
    match parse_i32_spec(text) {
        Ok(v) => {
            if !(RANGE_MIN <= v <= RANGE_MAX) {
                let before = "Measured temperature "@;
                let after = " is outside of sensor range"@;
                reveal_strlit("Measured temperature ");
                reveal_strlit(" is outside of sensor range");
                lemma_decimal_text_chars(v);
                lemma_one_line_concat(before, decimal_text(v));
                lemma_one_line_concat(before + decimal_text(v), after);
                lemma_message_is_persistable(time, before + decimal_text(v) + after);
            }
        },
        Err(e) => {
            let before = "Couldn't parse number string=\""@;
            let middle = "\" err=\""@;
            reveal_strlit("Couldn't parse number string=\"");
            reveal_strlit("\" err=\"");
            reveal_strlit("cannot parse integer from empty string");
            reveal_strlit("invalid digit found in string");
            reveal_strlit("number too large to fit in target type");
            reveal_strlit("number too small to fit in target type");
            let message = number_error_text(e);
            lemma_one_line_concat(before, text);
            lemma_one_line_concat(before + text, middle);
            lemma_one_line_concat(before + text + middle, message);
            lemma_one_line_concat(before + text + middle + message, quote);
            lemma_message_is_persistable(time, before + text + middle + message + quote);
        },
    }
}

/// The characters of a line that may be missing.
pub open spec fn line_text(line: Option<&str>) -> Option<Seq<char>> {
    match line {
        None => None,
        Some(l) => Some(l@),
    }
}

/// The message that goes with a `NumberError`.
pub fn number_error_message(e: NumberError) -> (message: &'static str)
    ensures
        message@ == number_error_text(e),
{
    match e {
        NumberError::Empty => "cannot parse integer from empty string",
        NumberError::InvalidDigit => "invalid digit found in string",
        NumberError::TooLarge => "number too large to fit in target type",
        NumberError::TooSmall => "number too small to fit in target type",
    }
}

/// The three texts one after the other.
fn concat3(before: &str, middle: &str, after: &str) -> (text: String)
    ensures
        text@ == before@ + middle@ + after@,
{
    let mut text = before.to_owned();
    text.append(middle);
    text.append(after);
    text
}

/// Turns the number found in the temperature line into a reading.
pub fn reading_from_number(text: &str) -> (reading: Temperature)
    ensures
        reading@ == reading_of_number(text@),
{
    match parse_decimal(text) {
        Ok(v) => {
            if RANGE_MIN <= v && v <= RANGE_MAX {
                Temperature::MiliCelcius(v)
            } else {
                let mut message = "Measured temperature ".to_owned();
                push_decimal(&mut message, v);
                message.append(" is outside of sensor range");
                Temperature::Error(message)
            }
        },
        Err(e) => {
            let mut message = concat3("Couldn't parse number string=\"", text, "\" err=\"");
            message.append(number_error_message(e));
            message.append("\"");
            Temperature::Error(message)
        },
    }
}

/// Turns two lines of a device file, and what the two searches found in
/// them, into a reading.
pub fn reading_from_lines(
    crc_line: Option<&str>,
    crc_ok: bool,
    temp_line: Option<&str>,
    captured: Option<Option<String>>,
) -> (reading: Temperature)
    ensures
        reading@ == reading_of_lines(
            line_text(crc_line),
            crc_ok,
            line_text(temp_line),
            captured_text(captured),
        ),
{
    match crc_line {
        None => Temperature::Error("crc line couldn't be read".to_owned()),
        Some(first) => {
            if !crc_ok {
                Temperature::Error(concat3("crc failed line=\"", first, "\""))
            } else {
                match temp_line {
                    None => Temperature::Error("temperature line couldn't be read".to_owned()),
                    Some(second) => match captured {
                        None => Temperature::Error(
                            concat3("Couldn't parse temperature line \"", second, "\""),
                        ),
                        Some(None) => Temperature::Error(
                            concat3("Regular expression value 2 was invalid \"", second, "\""),
                        ),
                        Some(Some(text)) => reading_from_number(text.as_str()),
                    },
                }
            }
        },
    }
}

/// One sensor of the bus: the file that yields its readings and the two
/// compiled patterns that its lines are held against.
pub struct Sensor {
    path: String,
    crc_regex: Regex,
    cap_regex: Regex,
}

impl Sensor {
    #[verifier::type_invariant]
    spec fn well_formed(&self) -> bool {
        &&& pattern_of(self.crc_regex) == CRC_PATTERN@
        &&& pattern_of(self.cap_regex) == CAP_PATTERN@
    }

    /// The path of the file that yields this sensor's readings.
    pub closed spec fn spec_path(&self) -> Seq<char> {
        self.path@
    }

    /// The sensor `id` below the directory `base`, once both patterns have
    /// compiled.
    pub fn new(base: &str, id: &str) -> (r: Result<Sensor, SensorError>)
        ensures
            match r {
                Ok(sensor) => pattern_compiles(CRC_PATTERN@) && pattern_compiles(CAP_PATTERN@)
                    && sensor.spec_path() == sensor_filename(base@, id@),
                Err(SensorError::CrcPattern) => !pattern_compiles(CRC_PATTERN@),
                Err(SensorError::CapPattern) => pattern_compiles(CRC_PATTERN@)
                    && !pattern_compiles(CAP_PATTERN@),
            },
    {
        let crc = compile(CRC_PATTERN);
        let cap = compile(CAP_PATTERN);
        Sensor::assemble(Sensor::get_sensor_filename(base, id), crc, cap)
    }

    /// Makes a sensor of a path and the outcome of compiling the two
    /// patterns: the first pattern that failed is the error.
    fn assemble(
        path: String,
        crc: Result<Regex, regex::Error>,
        cap: Result<Regex, regex::Error>,
    ) -> (r: Result<Sensor, SensorError>)
        requires
            crc matches Ok(re) ==> pattern_of(re) == CRC_PATTERN@,
            cap matches Ok(re) ==> pattern_of(re) == CAP_PATTERN@,
        ensures
            crc is Err ==> r == Err::<Sensor, SensorError>(SensorError::CrcPattern),
            crc is Ok && cap is Err ==> r == Err::<Sensor, SensorError>(SensorError::CapPattern),
            crc is Ok && cap is Ok ==> r is Ok && r->Ok_0.spec_path() == path@,
    {
        match crc {
            Err(_) => Err(SensorError::CrcPattern),
            Ok(crc_regex) => match cap {
                Err(_) => Err(SensorError::CapPattern),
                Ok(cap_regex) => Ok(Sensor { path, crc_regex, cap_regex }),
            },
        }
    }

    /// The path of the file that yields this sensor's readings.
    pub fn path(&self) -> (path: &String)
        ensures
            path@ == self.spec_path(),
    {
        &self.path
    }

    /// The reading that stands for a device file that could not be opened.
    pub fn open_failure(&self) -> (reading: Temperature)
        ensures
            reading@ == Reading::Error("Couldn't open file "@ + self.spec_path()),
    {
        let mut message = "Couldn't open file ".to_owned();
        message.append(self.path.as_str());
        Temperature::Error(message)
    }

    /// The reading that the first two lines of the device file stand for;
    /// a line is `None` where the file ended or could not be read.
    pub fn read_temp(&self, crc_line: Option<&str>, temp_line: Option<&str>) -> (reading:
        Temperature)
        ensures
            reading@ == reading_of_lines(
                line_text(crc_line),
                crc_line matches Some(first) && regex_is_match(CRC_PATTERN@, first@),
                line_text(temp_line),
                match temp_line {
                    Some(second) => regex_group(CAP_PATTERN@, second@, 2),
                    None => None,
                },
            ),
            !(reading@ is Invalid),
            reading@ matches Reading::Value(v) ==> RANGE_MIN <= v <= RANGE_MAX,
    {
        proof {
            use_type_invariant(self);
        }
        let crc_ok = match crc_line {
            Some(first) => is_match(&self.crc_regex, first),
            None => false,
        };
        let captured = match temp_line {
            Some(second) => if crc_ok {
                capture(&self.cap_regex, second, 2)
            } else {
                None
            },
            None => None,
        };
        reading_from_lines(crc_line, crc_ok, temp_line, captured)
    }

    /// The file that yields the readings of sensor `id` below the directory
    /// `base`.
    pub fn get_sensor_filename(base: &str, id: &str) -> (path: String)
        ensures
            path@ == sensor_filename(base@, id@),
    {
        let mut path = base.to_owned();
        path.append("/");
        path.append(id);
        path.append(DEVICE_FILE);
        path
    }

    /// The directory that lists the devices: below `home` on a development
    /// machine, the kernel's own otherwise.
    pub fn get_sensor_base_path(home: Option<&str>) -> (base: String)
        ensures
            base@ == match home {
                Some(h) => h@ + HOME_DEVICES_PATH@,
                None => DEVICES_PATH@,
            },
    {
        match home {
            Some(h) => {
                let mut base = h.to_owned();
                base.append(HOME_DEVICES_PATH);
                base
            },
            None => DEVICES_PATH.to_owned(),
        }
    }
}

/// The path of the device file of sensor `id` below the directory `base`.
pub open spec fn sensor_filename(base: Seq<char>, id: Seq<char>) -> Seq<char> {
    base + "/"@ + id + DEVICE_FILE@
}

/// What the names of the sensors of the family begin with.
pub const SENSOR_PREFIX: &'static str = "28-";

/// Whether `name` begins with `prefix`.
pub open spec fn has_prefix(name: Seq<char>, prefix: Seq<char>) -> bool {
    prefix.len() <= name.len() && name.take(prefix.len() as int) == prefix
}

/// Whether `name` is the id of a sensor of the family.
pub open spec fn is_sensor_id(name: Seq<char>) -> bool {
    has_prefix(name, SENSOR_PREFIX@)
}

/// Whether `name` begins with `prefix`.
pub fn starts_with(name: &str, prefix: &str) -> (result: bool)
    ensures
        result == has_prefix(name@, prefix@),
{
    let n = chars_of(name);
    let p = chars_of(prefix);
    if p.len() > n.len() {
        return false;
    }
    let mut i: usize = 0;
    while i < p.len()
        invariant
            i <= p.len() <= n.len(),
            n@ == name@,
            p@ == prefix@,
            forall|j: int| 0 <= j < i ==> n@[j] == p@[j],
        decreases p.len() - i,
    {
        if n[i] != p[i] {
            return false;
        }
        i += 1;
    }
    assert(name@.take(prefix@.len() as int) =~= prefix@);
    true
}

impl Sensor {
    /// The ids of the sensors among the entries of the devices directory:
    /// the entries that begin with the family's prefix, in the order in
    /// which they stand.
    pub fn get_all_sensor_ids(entries: &Vec<String>) -> (ids: Vec<String>)
        ensures
            texts(ids@) == texts(entries@).filter(
                |name: Seq<char>| is_sensor_id(name),
            ),
    {
        let ghost names = texts(entries@);
        let ghost wanted = |name: Seq<char>| is_sensor_id(name);
        let mut ids: Vec<String> = Vec::new();
        let mut i: usize = 0;
        assert(texts(ids@) =~= names.take(0).filter(wanted)) by {
            reveal(Seq::filter);
        }
        while i < entries.len()
            invariant
                i <= entries.len(),
                names == texts(entries@),
                wanted == |name: Seq<char>| is_sensor_id(name),
                texts(ids@) == names.take(i as int).filter(wanted),
            decreases entries.len() - i,
        {
            proof {
                reveal(Seq::filter);
                assert(names.take(i + 1).drop_last() =~= names.take(i as int));
            }
            if starts_with(entries[i].as_str(), SENSOR_PREFIX) {
                ids.push(entries[i].clone());
            }
            i += 1;
        }
        assert(names.take(entries.len() as int) =~= names);
        ids
    }
}

} // verus!
