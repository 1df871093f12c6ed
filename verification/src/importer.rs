//! The options interface shared by the importers: which options there are,
//! and setting or reading one by name.
use vstd::prelude::*;
use crate::config::{owned, OptionDescription};
use crate::csv_options::CsvImporter;

verus! {

/// An object that holds the import options of a format.
pub trait Importer {
    /// The options that `set` and `get` take; none unless the format says.
    fn options(&self) -> (res: Vec<OptionDescription>)
        default_ensures
            res@.len() == 0,
    {
        Vec::new()
    }

    /// Sets an option from text; no option is known unless the format
    /// says.
    fn set(&mut self, option: &str, value: &str) -> (res: Result<(), String>)
        default_ensures
            res matches Err(e) && e@ == "Unknown option"@,
    {
        Err(owned("Unknown option"))
    }

    /// The text of an option; none unless the format says.
    fn get(&self, option: &str) -> (res: Option<String>)
        default_ensures
            res is None,
    {
        None
    }

    /// Whether to ask for options before importing: when there are any.
    fn should_show_options(&self) -> (res: bool)
        ensures
            exists|o: Vec<OptionDescription>| call_ensures(Self::options, (self,), o) && res == (o@.len() > 0),
    {
        let o = self.options();
        o.len() > 0
    }
}

impl Importer for CsvImporter {
    fn options(&self) -> (res: Vec<OptionDescription>)
        ensures
            res@.len() == crate::csv_options::csv_option_names().len(),
            forall|i: int|
                0 <= i < res@.len() ==> #[trigger] res@[i].name@ == crate::csv_options::csv_option_names()[i],
    {
        CsvImporter::options(self)
    }

    fn set(&mut self, option: &str, value: &str) -> (res: Result<(), String>)
        ensures
            match crate::csv_options::spec_set(old(self)@, option@, value@) {
                Ok(next) => res is Ok && final(self)@ == next,
                Err(e) => crate::config::err_view(res) == Err::<(), Seq<char>>(e) && final(self)@ == old(
                    self,
                )@,
            },
    {
        CsvImporter::set(self, option, value)
    }

    fn get(&self, option: &str) -> (res: Option<String>)
        ensures
            crate::csv_options::opt_string_view(res) == crate::csv_options::spec_get(self@, option@),
    {
        CsvImporter::get(self, option)
    }
}

/// The importer of sigrok session files, which takes no options.
pub struct SrZipImporter {}

impl SrZipImporter {
    pub fn new() -> Self {
        SrZipImporter {}
    }
}

impl Importer for SrZipImporter {}

} // verus!
