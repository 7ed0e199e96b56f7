//! A status block that reads fan speeds from the `sensors` command's JSON output,
//! keeps the plausible readings, and shows their minimum, maximum and mean
//! through a format string.
pub mod aggregate;
pub mod fan;
pub mod reading;
pub mod sensors;
pub mod template;

pub use aggregate::aggregate;
pub use fan::{Fan, FanConfig, FanError};
pub use reading::{Sample, parse_reading, select_readings};
pub use sensors::{OutputError, read_samples};
pub use template::{FormatError, FormatTemplate, Segment, Values};
