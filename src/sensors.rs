use vstd::prelude::*;
use vstd::multiset::Multiset;
use std::collections::HashMap;
use crate::reading::Sample;

verus! {

/// The inputs that the sensor output holds, over all chips: each input's label,
/// and its fields (name and number as printed) when every field is a number.
/// `None` when the output is not JSON shaped as chips holding inputs.
pub uninterp spec fn sensor_inputs_of(text: Seq<char>) -> Option<Multiset<(Seq<char>, Option<Multiset<(Seq<char>, Seq<char>)>>)>>;

pub open spec fn fields_view(f: Seq<(String, String)>) -> Multiset<(Seq<char>, Seq<char>)> {
    f.map_values(|p: (String, String)| (p.0@, p.1@)).to_multiset()
}

pub open spec fn input_view(e: (String, Option<Vec<(String, String)>>)) -> (Seq<char>, Option<Multiset<(Seq<char>, Seq<char>)>>) {
    (e.0@, match e.1 {
        Some(f) => Some(fields_view(f@)),
        None => None,
    })
}

pub open spec fn inputs_view(v: Seq<(String, Option<Vec<(String, String)>>)>) -> Multiset<(Seq<char>, Option<Multiset<(Seq<char>, Seq<char>)>>)> {
    v.map_values(|e: (String, Option<Vec<(String, String)>>)| input_view(e)).to_multiset()
}

/// Relies on serde_json::from_str (chip to input to value), then on
/// serde_json::from_value into a map of serde_json::Number for each input, and
/// on Number's Display for each number. What comes back depends on the text
/// alone, but for the order, which follows the hash maps.
#[verifier::external_body]
fn sensor_inputs(text: &str) -> (r: Option<Vec<(String, Option<Vec<(String, String)>>)>>)
    ensures
        r is Some <==> sensor_inputs_of(text@) is Some,
        r matches Some(v) ==> inputs_view(v@) == sensor_inputs_of(text@).unwrap(),
{
    let tree: HashMap<String, HashMap<String, serde_json::Value>> = serde_json::from_str(text).ok()?;
    Some(tree.into_values().flatten().map(|(label, value)| {
        let fields = serde_json::from_value::<HashMap<String, serde_json::Number>>(value).ok();
        (label, fields.map(|m| m.into_iter().map(|(k, n)| (k, n.to_string())).collect()))
    }).collect())
}

/// Why the sensor output could not be read.
#[derive(Clone, Copy, Debug, PartialEq, Eq, Structural)]
pub enum OutputError {
    /// The output is not JSON shaped as chips holding inputs.
    Malformed,
}

pub open spec fn sample_view(s: Sample) -> (Seq<char>, Seq<char>, Seq<char>) {
    (s.input@, s.metric@, s.number@)
}

pub open spec fn samples_view(s: Seq<Sample>) -> Seq<(Seq<char>, Seq<char>, Seq<char>)> {
    s.map_values(|x: Sample| sample_view(x))
}

/// The samples of one input: one for each field, when all its fields are numbers.
pub open spec fn input_samples(e: (String, Option<Vec<(String, String)>>)) -> Seq<(Seq<char>, Seq<char>, Seq<char>)> {
    match e.1 {
        Some(f) => f@.map_values(|p: (String, String)| (e.0@, p.0@, p.1@)),
        None => Seq::empty(),
    }
}

pub open spec fn flattened(v: Seq<(String, Option<Vec<(String, String)>>)>) -> Seq<(Seq<char>, Seq<char>, Seq<char>)>
    decreases v.len(),
{
    if v.len() == 0 {
        Seq::empty()
    } else {
        flattened(v.drop_last()) + input_samples(v.last())
    }
}

/// `s` holds one sample for each numeric field of each input of the output whose
/// fields are all numbers, and nothing else.
pub open spec fn read_from(output: Seq<char>, s: Seq<Sample>) -> bool {
    exists|v: Seq<(String, Option<Vec<(String, String)>>)>|
        #[trigger] inputs_view(v) == sensor_inputs_of(output).unwrap() && samples_view(s) == flattened(v)
}

/// Reads the sensor command's output into samples: one for each numeric field of
/// each input whose fields are all numbers; other inputs are passed over.
pub fn read_samples(output: &str) -> (r: Result<Vec<Sample>, OutputError>)
    ensures
        r is Ok <==> sensor_inputs_of(output@) is Some,
        r matches Ok(s) ==> read_from(output@, s@),
        r matches Err(e) ==> e == OutputError::Malformed,
{
    let inputs = match sensor_inputs(output) {
        Some(inputs) => inputs,
        None => {
            return Err(OutputError::Malformed);
        },
    };
    let mut samples: Vec<Sample> = Vec::new();
    let mut i: usize = 0;
    assert(samples_view(samples@) =~= flattened(inputs@.take(0)));
    while i < inputs.len()
        invariant
            i <= inputs.len(),
            samples_view(samples@) == flattened(inputs@.take(i as int)),
        decreases inputs.len() - i,
    {
        let ghost before = samples_view(samples@);
        assert(inputs@.take(i + 1).drop_last() =~= inputs@.take(i as int));
        let label = &inputs[i].0;
        match &inputs[i].1 {
            None => {
                assert(input_samples(inputs@[i as int]) =~= Seq::empty());
                assert(before + input_samples(inputs@[i as int]) =~= before);
            },
            Some(fields) => {
                let mut j: usize = 0;
                assert(samples_view(samples@) =~= before + input_samples(inputs@[i as int]).take(0));
                while j < fields.len()
                    invariant
                        j <= fields.len(),
                        inputs@[i as int].1 == Some(*fields),
                        inputs@[i as int].0 == *label,
                        samples_view(samples@) == before + input_samples(inputs@[i as int]).take(j as int),
                    decreases fields.len() - j,
                {
                    let ghost prev = samples@;
                    let s = Sample { input: label.clone(), metric: fields[j].0.clone(), number: fields[j].1.clone() };
                    samples.push(s);
                    proof {
                        assert(samples@ == prev.push(s));
                        assert(samples_view(samples@) =~= samples_view(prev).push(sample_view(s)));
                        assert(input_samples(inputs@[i as int]).take(j + 1) =~= input_samples(inputs@[i as int]).take(j as int).push(sample_view(s)));
                    }
                    j = j + 1;
                }
                assert(input_samples(inputs@[i as int]).take(j as int) =~= input_samples(inputs@[i as int]));
            },
        }
        i = i + 1;
    }
    assert(inputs@.take(i as int) =~= inputs@);
    Ok(samples)
}

} // verus!
