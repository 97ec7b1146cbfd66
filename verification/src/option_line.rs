//! The Touchstone option line: the single `#`-prefixed header declaring
//! frequency unit, parameter kind, data format, resistance marker, and
//! reference resistance.  Tokens are matched case-insensitively and in any
//! order; an unrecognized token becomes the reference-resistance value.

use vstd::prelude::*;

use crate::text::lower;
use crate::text::lower_char;
use crate::text::lower_string;
use crate::text::seq_views;
use crate::text::split_whitespace_tokens;
use crate::text::split_ws;
use crate::text::str_eq;

verus! {

/// The mathematical content of an [`Options`] record.
pub ghost struct OptionsV {
    pub frequency_unit: Seq<char>,
    pub parameter: Seq<char>,
    pub format: Seq<char>,
    pub resistance_string: Seq<char>,
    pub reference_resistance: Seq<char>,
}

/// The governing option-line state of one Touchstone file.
#[derive(Debug, Clone)]
pub struct Options {
    pub frequency_unit: String,
    pub parameter: String,
    pub format: String,
    pub resistance_string: String,
    pub reference_resistance: String,
}

impl View for Options {
    type V = OptionsV;

    open spec fn view(&self) -> OptionsV {
        OptionsV {
            frequency_unit: self.frequency_unit@,
            parameter: self.parameter@,
            format: self.format@,
            resistance_string: self.resistance_string@,
            reference_resistance: self.reference_resistance@,
        }
    }
}

/// The defaults when a file carries no option line: GHz, S-parameters,
/// magnitude-angle format, marker `R`, 50 ohms.
pub open spec fn default_options() -> OptionsV {
    OptionsV {
        frequency_unit: "GHz"@,
        parameter: "S"@,
        format: "MA"@,
        resistance_string: "R"@,
        reference_resistance: "50"@,
    }
}

/// The effect of one option-line token: matched case-insensitively against
/// the fixed vocabularies; anything else becomes the reference resistance,
/// stored in its lower-case form.
pub open spec fn apply_option_token(o: OptionsV, t: Seq<char>) -> OptionsV {
    let l = lower(t);
    if l == "#"@ {
        o
    } else if l == "hz"@ {
        OptionsV { frequency_unit: "Hz"@, ..o }
    } else if l == "khz"@ {
        OptionsV { frequency_unit: "kHz"@, ..o }
    } else if l == "mhz"@ {
        OptionsV { frequency_unit: "MHz"@, ..o }
    } else if l == "ghz"@ {
        OptionsV { frequency_unit: "GHz"@, ..o }
    } else if l == "s"@ {
        OptionsV { parameter: "S"@, ..o }
    } else if l == "y"@ {
        OptionsV { parameter: "Y"@, ..o }
    } else if l == "z"@ {
        OptionsV { parameter: "Z"@, ..o }
    } else if l == "h"@ {
        OptionsV { parameter: "H"@, ..o }
    } else if l == "g"@ {
        OptionsV { parameter: "G"@, ..o }
    } else if l == "db"@ {
        OptionsV { format: "DB"@, ..o }
    } else if l == "ma"@ {
        OptionsV { format: "MA"@, ..o }
    } else if l == "ri"@ {
        OptionsV { format: "RI"@, ..o }
    } else if l == "r"@ {
        OptionsV { resistance_string: "R"@, ..o }
    } else {
        OptionsV { reference_resistance: l, ..o }
    }
}

/// The effect of a token sequence, applied left to right.
pub open spec fn apply_option_tokens(o: OptionsV, ts: Seq<Seq<char>>) -> OptionsV
    decreases ts.len(),
{
    if ts.len() == 0 {
        o
    } else {
        apply_option_tokens(apply_option_token(o, ts[0]), ts.skip(1))
    }
}

/// What parsing one option line does to an options record: the effect of
/// its whitespace-separated tokens, in order.
pub open spec fn spec_parse_option_line(o: OptionsV, line: Seq<char>) -> OptionsV {
    apply_option_tokens(o, split_ws(line))
}

/// The canonical rendering of an options record as an option line.
pub open spec fn spec_option_line(o: OptionsV) -> Seq<char> {
    "# "@ + o.frequency_unit + " "@ + o.parameter + " "@ + o.format + " "@ + o.resistance_string
        + " "@ + o.reference_resistance
}

impl Options {
    /// The default option-line state: `GHz S MA R 50`.
    pub fn default() -> (r: Self)
        ensures
            r@ == default_options(),
    {
        Self {
            frequency_unit: "GHz".to_owned(),
            parameter: "S".to_owned(),
            format: "MA".to_owned(),
            resistance_string: "R".to_owned(),
            reference_resistance: "50".to_owned(),
        }
    }

    /// An options record with the given five fields.
    pub fn new(
        frequency_unit: String,
        parameter: String,
        format: String,
        resistance_string: String,
        reference_resistance: String,
    ) -> (r: Self)
        ensures
            r@.frequency_unit == frequency_unit@,
            r@.parameter == parameter@,
            r@.format == format@,
            r@.resistance_string == resistance_string@,
            r@.reference_resistance == reference_resistance@,
    {
        Self { frequency_unit, parameter, format, resistance_string, reference_resistance }
    }

    /// Renders the record as the option line it canonically stands for:
    /// `# <frequency unit> <parameter> <format> <marker> <resistance>`.
    pub fn to_option_line(&self) -> (r: String)
        ensures
            r@ == spec_option_line(self@),
    {
        let mut out: String = "# ".to_owned();
        out.append(self.frequency_unit.as_str());
        out.append(" ");
        out.append(self.parameter.as_str());
        out.append(" ");
        out.append(self.format.as_str());
        out.append(" ");
        out.append(self.resistance_string.as_str());
        out.append(" ");
        out.append(self.reference_resistance.as_str());
        proof {
            assert(out@ =~= spec_option_line(self@));
        }
        out
    }
}

/// The vocabulary a token belongs to: `#` (0), a frequency unit (1), a
/// parameter kind (2), a data format (3), the resistance marker (4), or —
/// anything else — a reference-resistance value (5).
pub open spec fn option_token_class(t: Seq<char>) -> int {
    let l = lower(t);
    if l == "#"@ {
        0
    } else if l == "hz"@ || l == "khz"@ || l == "mhz"@ || l == "ghz"@ {
        1
    } else if l == "s"@ || l == "y"@ || l == "z"@ || l == "h"@ || l == "g"@ {
        2
    } else if l == "db"@ || l == "ma"@ || l == "ri"@ {
        3
    } else if l == "r"@ {
        4
    } else {
        5
    }
}

/// Case folding is idempotent, so folding a token twice changes nothing.
pub proof fn lemma_lower_idempotent(t: Seq<char>)
    ensures
        lower(lower(t)) == lower(t),
{
    assert(lower(lower(t)) =~= lower(t)) by {
        assert forall|i: int| 0 <= i < t.len() implies lower(lower(t))[i] == lower(t)[i] by {
            assert(lower(t)[i] == lower_char(t[i]));
        }
    }
}

/// Option tokens are matched case-insensitively: a token and its folded
/// form have the same effect on an options record.
pub proof fn lemma_option_token_case_insensitive(o: OptionsV, t: Seq<char>)
    ensures
        apply_option_token(o, t) == apply_option_token(o, lower(t)),
{
    lemma_lower_idempotent(t);
}

/// Option tokens are order-independent across vocabularies: two tokens of
/// different vocabularies may stand in either order with the same result,
/// since each vocabulary sets a field of its own.
pub proof fn lemma_option_tokens_commute(o: OptionsV, t1: Seq<char>, t2: Seq<char>)
    requires
        option_token_class(t1) != option_token_class(t2),
    ensures
        apply_option_token(apply_option_token(o, t1), t2) == apply_option_token(
            apply_option_token(o, t2),
            t1,
        ),
{
}

/// Applies one already-lower-cased token to an options record.
fn apply_token_exec(options: Options, lowered: &String, t: Ghost<Seq<char>>) -> (r: Options)
    requires
        lowered@ == lower(t@),
    ensures
        r@ == apply_option_token(options@, t@),
{
    let l = lowered.as_str();
    if str_eq(l, "#") {
        options
    } else if str_eq(l, "hz") {
        Options { frequency_unit: "Hz".to_owned(), ..options }
    } else if str_eq(l, "khz") {
        Options { frequency_unit: "kHz".to_owned(), ..options }
    } else if str_eq(l, "mhz") {
        Options { frequency_unit: "MHz".to_owned(), ..options }
    } else if str_eq(l, "ghz") {
        Options { frequency_unit: "GHz".to_owned(), ..options }
    } else if str_eq(l, "s") {
        Options { parameter: "S".to_owned(), ..options }
    } else if str_eq(l, "y") {
        Options { parameter: "Y".to_owned(), ..options }
    } else if str_eq(l, "z") {
        Options { parameter: "Z".to_owned(), ..options }
    } else if str_eq(l, "h") {
        Options { parameter: "H".to_owned(), ..options }
    } else if str_eq(l, "g") {
        Options { parameter: "G".to_owned(), ..options }
    } else if str_eq(l, "db") {
        Options { format: "DB".to_owned(), ..options }
    } else if str_eq(l, "ma") {
        Options { format: "MA".to_owned(), ..options }
    } else if str_eq(l, "ri") {
        Options { format: "RI".to_owned(), ..options }
    } else if str_eq(l, "r") {
        Options { resistance_string: "R".to_owned(), ..options }
    } else {
        Options { reference_resistance: lowered.clone(), ..options }
    }
}

/// Parses one option line into `options`: each whitespace-separated token,
/// lower-cased, either sets the field of the vocabulary it belongs to or
/// becomes the reference resistance; later tokens win.
pub fn parse_option_line(option_line: String, options: &mut Options)
    ensures
        final(options)@ == spec_parse_option_line(old(options)@, option_line@),
{
    let tokens = split_whitespace_tokens(option_line.as_str());
    let ghost toks = seq_views(tokens@);
    let mut cur = Options {
        frequency_unit: options.frequency_unit.clone(),
        parameter: options.parameter.clone(),
        format: options.format.clone(),
        resistance_string: options.resistance_string.clone(),
        reference_resistance: options.reference_resistance.clone(),
    };
    let mut i: usize = 0;
    proof {
        assert(toks.skip(0) =~= toks);
    }
    while i < tokens.len()
        invariant
            i <= tokens.len(),
            toks == seq_views(tokens@),
            apply_option_tokens(cur@, toks.skip(i as int)) == apply_option_tokens(
                old(options)@,
                toks,
            ),
        decreases tokens.len() - i,
    {
        proof {
            assert(toks.skip(i as int)[0] == toks[i as int]);
            assert(toks.skip(i as int).skip(1) =~= toks.skip(i + 1));
        }
        let lowered = lower_string(tokens[i].as_str());
        cur = apply_token_exec(cur, &lowered, Ghost(toks[i as int]));
        i = i + 1;
    }
    *options = cur;
}

} // verus!
