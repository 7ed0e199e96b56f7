use vstd::prelude::*;
use std::collections::BTreeMap;
use crate::aggregate::{aggregate, lemma_average_between_min_and_max, summary};
use crate::reading::{Sample, counted, rejected, select_readings, whitelist_view};
use crate::sensors::{OutputError, read_from, read_samples, sensor_inputs_of};
use crate::template::{FormatError, FormatTemplate, Segment, parse_format, rendered};

verus! {

/// Settings of a fan block.
#[derive(Clone, Debug)]
pub struct FanConfig {
    /// Poll interval in seconds.
    pub interval: u64,
    /// Format of the text, with `{average}`, `{min}` and `{max}` placeholders.
    pub format: String,
    /// A chip to restrict the query to.
    pub chip: Option<String>,
    /// The input labels to accept; `None` accepts every input.
    pub inputs: Option<Vec<String>>,
    /// Colours handed on to the display untouched.
    pub color_overrides: Option<BTreeMap<String, String>>,
}

impl FanConfig {
    pub fn default_format() -> (r: String)
        ensures
            r@ == "{average}RPM"@,
    {
        String::from_str("{average}RPM")
    }

    pub fn default_interval() -> (r: u64)
        ensures
            r == 15,
    {
        15
    }

    pub fn default_chip() -> (r: Option<String>)
        ensures
            r is None,
    {
        None
    }

    pub fn default_inputs() -> (r: Option<Vec<String>>)
        ensures
            r is None,
    {
        None
    }

    pub fn default_color_overrides() -> (r: Option<BTreeMap<String, String>>)
        ensures
            r is None,
    {
        None
    }
}

/// Why a fan block failed.
#[derive(Clone, Copy, Debug, PartialEq, Eq, Structural)]
pub enum FanError {
    /// The configured format is invalid; the block cannot be built.
    Config(FormatError),
    /// The sensor output could not be read; the cycle fails.
    Parse(OutputError),
}

/// A status block that shows the speed of the fans.
pub struct Fan {
    text: String,
    id: String,
    update_interval: u64,
    format: FormatTemplate,
    chip: Option<String>,
    inputs: Option<Vec<String>>,
    color_overrides: Option<BTreeMap<String, String>>,
}

/// `after` is `before` with the texts of `added` appended, in order.
pub open spec fn appended(before: Seq<String>, after: Seq<String>, added: Seq<Seq<char>>) -> bool {
    after.len() == before.len() + added.len()
        && (forall|i: int| 0 <= i < before.len() ==> #[trigger] after[i] == before[i])
        && (forall|i: int| 0 <= i < added.len() ==> (#[trigger] after[before.len() + i])@ == added[i])
}

/// The text after a cycle that yielded `readings`: unchanged when there are none,
/// else the format with their minimum, maximum and rounded mean put in.
pub open spec fn next_text(before: Seq<char>, format: Seq<Segment>, readings: Seq<u64>) -> Seq<char> {
    if readings.len() == 0 {
        before
    } else {
        rendered(format, summary(readings))
    }
}

/// A cycle in which no reading survives leaves the shown text as it was.
pub proof fn lemma_no_readings_keeps_text(before: Seq<char>, format: Seq<Segment>, samples: Seq<Sample>, whitelist: Option<Seq<String>>)
    requires
        counted(samples, whitelist).len() == 0,
    ensures
        next_text(before, format, counted(samples, whitelist)) == before,
{
}

impl Fan {
    pub closed spec fn text_view(&self) -> Seq<char> {
        self.text@
    }

    pub closed spec fn id_view(&self) -> Seq<char> {
        self.id@
    }

    pub closed spec fn format_view(&self) -> Seq<Segment> {
        self.format@
    }

    pub closed spec fn interval_secs(&self) -> u64 {
        self.update_interval
    }

    pub closed spec fn chip_view(&self) -> Option<String> {
        self.chip
    }

    pub closed spec fn whitelist(&self) -> Option<Seq<String>> {
        whitelist_view(self.inputs)
    }

    pub closed spec fn overrides(&self) -> Option<BTreeMap<String, String>> {
        self.color_overrides
    }

    /// The settings that a cycle does not change.
    pub open spec fn same_settings(&self, other: &Fan) -> bool {
        self.id_view() == other.id_view() && self.format_view() == other.format_view()
            && self.interval_secs() == other.interval_secs() && self.chip_view() == other.chip_view()
            && self.whitelist() == other.whitelist() && self.overrides() == other.overrides()
    }

    /// Builds the block; fails exactly when the configured format is invalid.
    pub fn new(config: FanConfig, id: String) -> (r: Result<Fan, FanError>)
        ensures
            match r {
                Ok(fan) => parse_format(config.format@) == Some(fan.format_view())
                    && fan.text_view() == Seq::<char>::empty() && fan.id_view() == id@
                    && fan.interval_secs() == config.interval && fan.chip_view() == config.chip
                    && fan.whitelist() == whitelist_view(config.inputs)
                    && fan.overrides() == config.color_overrides,
                Err(e) => parse_format(config.format@) is None && e is Config,
            },
    {
        let format = match FormatTemplate::from_string(config.format.as_str()) {
            Ok(t) => t,
            Err(e) => {
                return Err(FanError::Config(e));
            },
        };
        Ok(Fan {
            text: String::new(),
            id,
            update_interval: config.interval,
            format,
            chip: config.chip,
            inputs: config.inputs,
            color_overrides: config.color_overrides,
        })
    }

    /// The arguments of the sensor query: the JSON flag, then the chip if one is set.
    pub fn sensors_args(&self) -> (r: Vec<String>)
        ensures
            r@.len() == (if self.chip_view() is Some { 2int } else { 1int }),
            r@[0]@ == "-j"@,
            self.chip_view() matches Some(c) ==> r@[1]@ == c@,
    {
        let mut args: Vec<String> = Vec::new();
        args.push(String::from_str("-j"));
        if let Some(c) = &self.chip {
            args.push(c.clone());
        }
        args
    }

    /// Folds the samples of one cycle into the shown text and returns the delay
    /// before the next cycle. The numbers that give no reading are appended to
    /// `diagnostics`.
    pub fn apply_samples(&mut self, samples: &Vec<Sample>, diagnostics: &mut Vec<String>) -> (r: u64)
        ensures
            r == old(self).interval_secs(),
            final(self).same_settings(old(self)),
            final(self).text_view() == next_text(
                old(self).text_view(),
                old(self).format_view(),
                counted(samples@, old(self).whitelist()),
            ),
            appended(old(diagnostics)@, final(diagnostics)@, rejected(samples@, old(self).whitelist())),
    {
        let (readings, out_of_range) = select_readings(samples, &self.inputs);
        let ghost before = diagnostics@;
        let mut i: usize = 0;
        while i < out_of_range.len()
            invariant
                i <= out_of_range.len(),
                diagnostics@.len() == before.len() + i,
                forall|j: int| 0 <= j < before.len() ==> #[trigger] diagnostics@[j] == before[j],
                forall|j: int| 0 <= j < i ==> #[trigger] diagnostics@[before.len() + j] == out_of_range@[j],
            decreases out_of_range.len() - i,
        {
            diagnostics.push(out_of_range[i].clone());
            i = i + 1;
        }
        if readings.len() > 0 {
            let values = aggregate(&readings);
            proof {
                lemma_average_between_min_and_max(readings@);
            }
            self.text = self.format.render(values);
        }
        self.update_interval
    }

    /// Runs one cycle on the sensor command's output. Output that cannot be read
    /// fails the cycle and changes nothing. Otherwise the samples read from it
    /// decide the new text and the diagnostics, and the delay is the configured
    /// interval.
    pub fn update(&mut self, output: &str, diagnostics: &mut Vec<String>) -> (r: Result<u64, FanError>)
        ensures
            r is Err <==> sensor_inputs_of(output@) is None,
            match r {
                Ok(d) => d == old(self).interval_secs() && final(self).same_settings(old(self))
                    && exists|s: Seq<Sample>| #[trigger] read_from(output@, s)
                        && final(self).text_view() == next_text(
                            old(self).text_view(),
                            old(self).format_view(),
                            counted(s, old(self).whitelist()),
                        )
                        && appended(old(diagnostics)@, final(diagnostics)@, rejected(s, old(self).whitelist())),
                Err(e) => *final(self) == *old(self) && final(diagnostics)@ == old(diagnostics)@
                    && e == FanError::Parse(OutputError::Malformed),
            },
    {
        match read_samples(output) {
            Ok(samples) => {
                let d = self.apply_samples(&samples, diagnostics);
                assert(read_from(output@, samples@));
                Ok(d)
            },
            Err(e) => Err(FanError::Parse(e)),
        }
    }

    /// Colours handed on to the display untouched.
    pub fn color_overrides(&self) -> (r: &Option<BTreeMap<String, String>>)
        ensures
            *r == self.overrides(),
    {
        &self.color_overrides
    }

    /// The text currently shown.
    pub fn view(&self) -> (r: &String)
        ensures
            r@ == self.text_view(),
    {
        &self.text
    }

    pub fn id(&self) -> (r: &String)
        ensures
            r@ == self.id_view(),
    {
        &self.id
    }
}

} // verus!
