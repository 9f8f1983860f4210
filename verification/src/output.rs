use vstd::prelude::*;

verus! {

/// The output shapes the presentation layer can render an offer list in.
/// Rendering itself is presentation glue and lives outside this crate;
/// the type is here so callers and the pipeline speak the same name.
#[derive(Clone, Copy, PartialEq, Eq, Structural, Debug)]
pub enum OutputFormat {
    Json,
    Rss,
    Table,
}

impl OutputFormat {
    /// The name each format goes by on the command line.
    pub fn name(&self) -> (r: &'static str)
        ensures
            r@ == match *self {
                OutputFormat::Json => "json"@,
                OutputFormat::Rss => "rss"@,
                OutputFormat::Table => "table"@,
            },
    {
        match self {
            OutputFormat::Json => "json",
            OutputFormat::Rss => "rss",
            OutputFormat::Table => "table",
        }
    }
}

} // verus!
