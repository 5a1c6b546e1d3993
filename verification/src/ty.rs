//! Domain types of the transit API client: identifiers, route and
//! disruption enumerations, API status and error bodies.

use vstd::prelude::*;

verus! {

/// An identifier newtype over a 32-bit integer.
#[derive(Clone, Copy, PartialEq, Eq, Structural, Debug, Hash)]
pub struct DisruptionId(pub i32);

/// An identifier newtype over a 32-bit integer.
#[derive(Clone, Copy, PartialEq, Eq, Structural, Debug, Hash)]
pub struct RunId(pub i32);

/// An identifier newtype over a 32-bit integer.
#[derive(Clone, Copy, PartialEq, Eq, Structural, Debug, Hash)]
pub struct StopId(pub i32);

/// An identifier newtype over a 32-bit integer.
#[derive(Clone, Copy, PartialEq, Eq, Structural, Debug, Hash)]
pub struct RouteId(pub i32);

/// An identifier newtype over a 32-bit integer.
#[derive(Clone, Copy, PartialEq, Eq, Structural, Debug, Hash)]
pub struct DirectionId(pub i32);

/// Whether a character is a decimal digit.
pub open spec fn is_dec_digit(c: char) -> bool {
    '0' <= c <= '9'
}

/// The value of a sequence of decimal digits, most significant first.
pub open spec fn dec_value_of(s: Seq<char>) -> int
    decreases s.len(),
{
    if s.len() == 0 {
        0
    } else {
        dec_value_of(s.drop_last()) * 10 + (s.last() as int - '0' as int)
    }
}

/// The digit portion of a signed decimal string: everything after an
/// optional leading sign.
pub open spec fn digits_of(s: Seq<char>) -> Seq<char> {
    if s.len() > 0 && (s[0] == '+' || s[0] == '-') {
        s.drop_first()
    } else {
        s
    }
}

/// Whether every character is a decimal digit.
pub open spec fn all_dec_digits(s: Seq<char>) -> bool {
    forall|i: int| 0 <= i < s.len() ==> is_dec_digit(#[trigger] s[i])
}

/// Whether a string is a well-formed signed decimal integer: an optional
/// sign followed by at least one digit.
pub open spec fn is_signed_dec(s: Seq<char>) -> bool {
    digits_of(s).len() > 0 && all_dec_digits(digits_of(s))
}

/// The signed value a well-formed decimal string denotes.
pub open spec fn signed_dec_value_of(s: Seq<char>) -> int {
    if s.len() > 0 && s[0] == '-' {
        -dec_value_of(digits_of(s))
    } else {
        dec_value_of(digits_of(s))
    }
}

/// A digit string's value only grows as more digits are read.
proof fn lemma_dec_value_monotone(s: Seq<char>, i: int)
    requires
        0 <= i <= s.len(),
        all_dec_digits(s),
    ensures
        dec_value_of(s) >= dec_value_of(s.take(i)),
        dec_value_of(s) >= 0,
    decreases s.len() - i,
{
    if i < s.len() {
        lemma_dec_value_monotone(s, i + 1);
        assert(s.take(i + 1).drop_last() =~= s.take(i));
        assert(s.take(i + 1).last() == s[i]);
        lemma_dec_value_nonneg(s.take(i));
    } else {
        assert(s.take(i) =~= s);
        lemma_dec_value_nonneg(s);
    }
}

/// A digit string's value is never negative.
proof fn lemma_dec_value_nonneg(s: Seq<char>)
    requires
        all_dec_digits(s),
    ensures
        dec_value_of(s) >= 0,
    decreases s.len(),
{
    if s.len() > 0 {
        assert(all_dec_digits(s.drop_last())) by {
            assert(forall|j: int|
                0 <= j < s.drop_last().len() ==> is_dec_digit(#[trigger] s.drop_last()[j]));
        }
        lemma_dec_value_nonneg(s.drop_last());
    }
}

/// A 32-bit integer that arrives on the wire as a decimal string rather
/// than as a number.
#[derive(Clone, Copy, PartialEq, Eq, Structural, Debug)]
pub struct I32ButSilly(pub i32);

impl I32ButSilly {
    /// Parses the decimal string form: an optional sign, then digits, and a
    /// value that fits in 32 bits. Returns the parsed value exactly when the
    /// string is such a number.
    #[verifier::loop_isolation(false)]
    pub fn parse(s: &str) -> (r: Option<I32ButSilly>)
        ensures
            match r {
                Option::Some(v) => is_signed_dec(s@) && i32::MIN <= signed_dec_value_of(s@)
                    <= i32::MAX && v.0 == signed_dec_value_of(s@),
                Option::None => !is_signed_dec(s@) || signed_dec_value_of(s@) < i32::MIN
                    || signed_dec_value_of(s@) > i32::MAX,
            },
    {
        let n = s.unicode_len();
        if n == 0 {
            return Option::None;
        }
        let c0 = s.get_char(0);
        let negative = c0 == '-';
        let has_sign = c0 == '-' || c0 == '+';
        let start: usize = if has_sign {
            1
        } else {
            0
        };
        if n == start {
            return Option::None;
        }
        let ghost digits = digits_of(s@);
        proof {
            assert(digits == if has_sign {
                s@.drop_first()
            } else {
                s@
            });
        }
        // The magnitude bound: one past `i32::MAX`, reachable only for the
        // most negative value.
        let limit: i64 = 2147483648;
        let mut acc: i64 = 0;
        let mut i: usize = start;
        proof {
            assert(digits.take(0) =~= Seq::<char>::empty());
        }
        while i < n
            invariant
                n == s@.len(),
                start <= i <= n,
                start == if has_sign {
                    1int
                } else {
                    0int
                },
                digits == digits_of(s@),
                digits.len() == n - start,
                forall|j: int| 0 <= j < i - start ==> is_dec_digit(#[trigger] digits[j]),
                acc == dec_value_of(digits.take(i - start)),
                0 <= acc <= limit,
            decreases n - i,
        {
            let c = s.get_char(i);
            if !(c >= '0' && c <= '9') {
                proof {
                    assert(digits_of(s@)[i - start] == s@[i as int]);
                    assert(!is_dec_digit(digits_of(s@)[i - start]));
                    assert(!all_dec_digits(digits_of(s@)));
                }
                return Option::None;
            }
            proof {
                assert(digits[i - start] == s@[i as int]);
                assert(digits.take(i - start + 1).drop_last() =~= digits.take(i - start));
                assert(digits.take(i - start + 1).last() == digits[i - start]);
            }
            let d = (c as u32) - 48;
            let next = acc * 10 + (d as i64);
            if next > limit {
                proof {
                    assert(digits.take(i - start + 1)[i - start] == digits[i - start]);
                    lemma_parse_overflow(s@, i - start + 1, next as int);
                }
                return Option::None;
            }
            acc = next;
            i = i + 1;
        }
        proof {
            assert(digits.take(n - start) =~= digits);
        }
        if negative {
            let v = -acc;
            if v < (i32::MIN as i64) {
                return Option::None;
            }
            Option::Some(I32ButSilly(v as i32))
        } else {
            if acc > (i32::MAX as i64) {
                return Option::None;
            }
            Option::Some(I32ButSilly(acc as i32))
        }
    }
}

/// Once a digit prefix exceeds the 32-bit magnitude bound, the whole string
/// denotes a value outside the representable range.
proof fn lemma_parse_overflow(s: Seq<char>, k: int, v: int)
    requires
        0 <= k <= digits_of(s).len(),
        dec_value_of(digits_of(s).take(k)) == v,
        v > 2147483648,
    ensures
        is_signed_dec(s) ==> signed_dec_value_of(s) < i32::MIN || signed_dec_value_of(s)
            > i32::MAX,
{
    if is_signed_dec(s) {
        assert(all_dec_digits(digits_of(s)));
        lemma_dec_value_monotone(digits_of(s), k);
        assert(dec_value_of(digits_of(s)) >= v);
    }
}

/// The route type of a service, carried on the wire as a signed byte.
#[derive(Clone, Copy, PartialEq, Eq, Structural, Debug)]
pub enum RouteType {
    /// Metropolitan train service
    Train,
    /// Metropolitan tram service
    Tram,
    /// Bus service
    Bus,
    /// Regional train service
    VLine,
    /// Night bus service
    NightBus,
    /// Any other route type
    Other(i8),
}

/// The wire number of a route type.
pub open spec fn route_type_number_of(r: RouteType) -> i8 {
    match r {
        RouteType::Train => 0,
        RouteType::Tram => 1,
        RouteType::Bus => 2,
        RouteType::VLine => 3,
        RouteType::NightBus => 4,
        RouteType::Other(x) => x,
    }
}

/// The route type a wire number decodes to: the five named services, and
/// the catch-all for everything else.
pub open spec fn route_type_of_number(x: i8) -> RouteType {
    if x == 0 {
        RouteType::Train
    } else if x == 1 {
        RouteType::Tram
    } else if x == 2 {
        RouteType::Bus
    } else if x == 3 {
        RouteType::VLine
    } else if x == 4 {
        RouteType::NightBus
    } else {
        RouteType::Other(x)
    }
}

impl RouteType {
    /// The wire number this route type serializes to.
    pub fn to_i8(&self) -> (r: i8)
        ensures
            r == route_type_number_of(*self),
    {
        match self {
            RouteType::Train => 0,
            RouteType::Tram => 1,
            RouteType::Bus => 2,
            RouteType::VLine => 3,
            RouteType::NightBus => 4,
            RouteType::Other(x) => *x,
        }
    }

    /// Decodes a wire number.
    pub fn from_i8(x: i8) -> (r: RouteType)
        ensures
            r == route_type_of_number(x),
    {
        if x == 0 {
            RouteType::Train
        } else if x == 1 {
            RouteType::Tram
        } else if x == 2 {
            RouteType::Bus
        } else if x == 3 {
            RouteType::VLine
        } else if x == 4 {
            RouteType::NightBus
        } else {
            RouteType::Other(x)
        }
    }
}

/// Decoding a route type and re-encoding it gives back the original wire
/// number, for every number.
pub proof fn lemma_route_type_round_trip(x: i8)
    ensures
        route_type_number_of(route_type_of_number(x)) == x,
{
}

/// A mode of transport a disruption may affect, numbered on the wire.
#[derive(Clone, Copy, PartialEq, Eq, Structural, Debug)]
pub enum DisruptionMode {
    MetroTrain,
    MetroBus,
    MetroTram,
    RegionalCoach,
    RegionalTrain,
    RegionalBus,
    SchoolBus,
    Telebus,
    NightBus,
    Ferry,
    InterstateTrain,
    Skybus,
    Taxi,
    General,
}

/// The wire number of a disruption mode.
pub open spec fn mode_number_of(m: DisruptionMode) -> i8 {
    match m {
        DisruptionMode::MetroTrain => 1,
        DisruptionMode::MetroBus => 2,
        DisruptionMode::MetroTram => 3,
        DisruptionMode::RegionalCoach => 4,
        DisruptionMode::RegionalTrain => 5,
        DisruptionMode::RegionalBus => 7,
        DisruptionMode::SchoolBus => 8,
        DisruptionMode::Telebus => 9,
        DisruptionMode::NightBus => 10,
        DisruptionMode::Ferry => 11,
        DisruptionMode::InterstateTrain => 12,
        DisruptionMode::Skybus => 13,
        DisruptionMode::Taxi => 14,
        DisruptionMode::General => 100,
    }
}

impl DisruptionMode {
    /// The numeric wire form of this mode.
    pub fn as_number(&self) -> (r: i8)
        ensures
            r == mode_number_of(*self),
    {
        match self {
            DisruptionMode::MetroTrain => 1,
            DisruptionMode::MetroBus => 2,
            DisruptionMode::MetroTram => 3,
            DisruptionMode::RegionalCoach => 4,
            DisruptionMode::RegionalTrain => 5,
            DisruptionMode::RegionalBus => 7,
            DisruptionMode::SchoolBus => 8,
            DisruptionMode::Telebus => 9,
            DisruptionMode::NightBus => 10,
            DisruptionMode::Ferry => 11,
            DisruptionMode::InterstateTrain => 12,
            DisruptionMode::Skybus => 13,
            DisruptionMode::Taxi => 14,
            DisruptionMode::General => 100,
        }
    }
}

/// The API's reported system status.
#[derive(Debug)]
pub struct Status {
    /// API version number
    pub version: String,
    /// API system health status (0 = offline, 1 = online)
    pub health: i8,
}

/// Whether a disruption is current or planned, lower-case on the wire.
#[derive(Clone, Copy, PartialEq, Eq, Structural, Debug)]
pub enum DisruptionStatus {
    Current,
    Planned,
}

impl DisruptionStatus {
    /// The lower-case wire form.
    pub fn as_str(&self) -> (r: &'static str)
        ensures
            self is Current ==> r@ == "current"@,
            self is Planned ==> r@ == "planned"@,
    {
        match self {
            DisruptionStatus::Current => "current",
            DisruptionStatus::Planned => "planned",
        }
    }

    /// Parses the lower-case wire form; any other text is rejected.
    pub fn parse(s: &str) -> (r: Option<DisruptionStatus>)
        ensures
            s@ == "current"@ ==> r == Option::Some(DisruptionStatus::Current),
            s@ == "planned"@ ==> r == Option::Some(DisruptionStatus::Planned),
            s@ != "current"@ && s@ != "planned"@ ==> r is None,
    {
        proof {
            reveal_strlit("current");
            reveal_strlit("planned");
            assert("current"@[0] == 'c');
            assert("planned"@[0] == 'p');
            assert("current"@ != "planned"@);
        }
        if crate::text::str_eq(s, "current") {
            Option::Some(DisruptionStatus::Current)
        } else if crate::text::str_eq(s, "planned") {
            Option::Some(DisruptionStatus::Planned)
        } else {
            Option::None
        }
    }
}

/// The structured error body a failed request may carry.
#[derive(Debug)]
pub struct ApiError {
    pub message: String,
    pub status: Status,
}

/// What related records an expandable response should include.
#[derive(Clone, Copy, PartialEq, Eq, Structural, Debug)]
pub enum ExpandOptions {
    All,
    Stop,
    Route,
    Run,
    Direction,
    Disruption,
    VehiclePosition,
    VehicleDescriptor,
    NoExpand,
}

impl ExpandOptions {
    /// The wire form: the option's name.
    pub fn as_str(&self) -> (r: &'static str)
        ensures
            self is All ==> r@ == "All"@,
            self is Stop ==> r@ == "Stop"@,
            self is Route ==> r@ == "Route"@,
            self is Run ==> r@ == "Run"@,
            self is Direction ==> r@ == "Direction"@,
            self is Disruption ==> r@ == "Disruption"@,
            self is VehiclePosition ==> r@ == "VehiclePosition"@,
            self is VehicleDescriptor ==> r@ == "VehicleDescriptor"@,
            self is NoExpand ==> r@ == "None"@,
    {
        match self {
            ExpandOptions::All => "All",
            ExpandOptions::Stop => "Stop",
            ExpandOptions::Route => "Route",
            ExpandOptions::Run => "Run",
            ExpandOptions::Direction => "Direction",
            ExpandOptions::Disruption => "Disruption",
            ExpandOptions::VehiclePosition => "VehiclePosition",
            ExpandOptions::VehicleDescriptor => "VehicleDescriptor",
            ExpandOptions::NoExpand => "None",
        }
    }
}

/// The fare category of a passenger, camel-cased on the wire.
#[derive(Clone, Copy, PartialEq, Eq, Structural, Debug)]
pub enum PassengerType {
    Senior,
    Concession,
    FullFare,
}

impl PassengerType {
    /// The camel-case wire form.
    pub fn as_str(&self) -> (r: &'static str)
        ensures
            self is Senior ==> r@ == "senior"@,
            self is Concession ==> r@ == "concession"@,
            self is FullFare ==> r@ == "fullFare"@,
    {
        match self {
            PassengerType::Senior => "senior",
            PassengerType::Concession => "concession",
            PassengerType::FullFare => "fullFare",
        }
    }
}

/// The operator of a service; the three named operators have fixed wire
/// names, anything else is carried verbatim.
#[derive(Debug)]
pub enum ServiceOperator {
    MetroTrainsMelbourne,
    YarraTrams,
    VenturaBusLine,
    Other(String),
}

impl ServiceOperator {
    /// The wire name of the operator.
    pub fn as_name(&self) -> (r: &str)
        ensures
            self is MetroTrainsMelbourne ==> r@ == "Metro Trains Melbourne"@,
            self is YarraTrams ==> r@ == "Yarra Trams"@,
            self is VenturaBusLine ==> r@ == "Ventura Bus Line"@,
            self matches ServiceOperator::Other(s) ==> r@ == s@,
    {
        match self {
            ServiceOperator::MetroTrainsMelbourne => "Metro Trains Melbourne",
            ServiceOperator::YarraTrams => "Yarra Trams",
            ServiceOperator::VenturaBusLine => "Ventura Bus Line",
            ServiceOperator::Other(s) => s.as_str(),
        }
    }

    /// Decodes a wire name: the three known operators map to their variants,
    /// anything else is kept as it came.
    pub fn from_name(s: String) -> (r: ServiceOperator)
        ensures
            s@ == "Metro Trains Melbourne"@ ==> r is MetroTrainsMelbourne,
            s@ == "Yarra Trams"@ ==> r is YarraTrams,
            s@ == "Ventura Bus Line"@ ==> r is VenturaBusLine,
            s@ != "Metro Trains Melbourne"@ && s@ != "Yarra Trams"@ && s@
                != "Ventura Bus Line"@ ==> (r matches ServiceOperator::Other(t) && t@ == s@),
    {
        proof {
            reveal_strlit("Metro Trains Melbourne");
            reveal_strlit("Yarra Trams");
            reveal_strlit("Ventura Bus Line");
            assert("Metro Trains Melbourne"@.len() == 22);
            assert("Yarra Trams"@.len() == 11);
            assert("Ventura Bus Line"@.len() == 16);
        }
        if crate::text::str_eq(s.as_str(), "Metro Trains Melbourne") {
            ServiceOperator::MetroTrainsMelbourne
        } else if crate::text::str_eq(s.as_str(), "Yarra Trams") {
            ServiceOperator::YarraTrams
        } else if crate::text::str_eq(s.as_str(), "Ventura Bus Line") {
            ServiceOperator::VenturaBusLine
        } else {
            ServiceOperator::Other(s)
        }
    }
}


/// A calendar date as plain values.
#[derive(Clone, Copy, PartialEq, Eq, Structural, Debug)]
pub struct Date {
    pub year: i32,
    pub month: u8,
    pub day: u8,
}

impl Date {
    /// A well-formed date: a month and a day a calendar can hold.
    pub open spec fn well_formed(&self) -> bool {
        1 <= self.month <= 12 && 1 <= self.day <= 31
    }

    /// A date from its parts, when they are well formed.
    pub fn new(year: i32, month: u8, day: u8) -> (r: Option<Date>)
        ensures
            match r {
                Option::Some(d) => d.well_formed() && d.year == year && d.month == month
                    && d.day == day,
                Option::None => !(1 <= month <= 12 && 1 <= day <= 31),
            },
    {
        if 1 <= month && month <= 12 && 1 <= day && day <= 31 {
            Option::Some(Date { year, month, day })
        } else {
            Option::None
        }
    }
}

/// The geographic path of a route: its validity window and its coordinate
/// runs, each coordinate kept as its exact decimal text.
#[derive(Debug)]
pub struct Geopath {
    pub direction_id: DirectionId,
    pub valid_from: Date,
    pub valid_to: Date,
    pub paths: Vec<Vec<(String, String)>>,
}

} // verus!
