use vstd::prelude::*;

verus! {

/// One help entry of the index.
pub struct HelpEntry {
    /// The entry's user-displayed name.
    pub name: String,
    /// The entry's contents.
    pub help: String,
    /// Additional keywords that are also checked when searching.
    pub keywords: Vec<String>,
}

/// The mathematical value of a help entry: its three fields as sequences.
#[verifier::ext_equal]
pub struct EntryModel {
    pub name: Seq<char>,
    pub help: Seq<char>,
    pub keywords: Seq<Seq<char>>,
}

impl View for HelpEntry {
    type V = EntryModel;

    open spec fn view(&self) -> EntryModel {
        EntryModel { name: self.name@, help: self.help@, keywords: self.keywords.deep_view() }
    }
}

} // verus!
