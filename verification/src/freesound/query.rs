//! The licence filter of a search, the credit line a licence asks for, and where a
//! sound's page is.

use vstd::prelude::*;

use crate::freesound::license::License;
use crate::text::{decimal, decimal_text, push_text, string_of};

verus! {

/// The licences worth offering by default. CC-BY-NC is deliberately absent: it forbids
/// commercial use, and a Dungeon Master streaming a paid game would be doing exactly
/// that without knowing it.
pub fn default_licenses() -> (licenses: Vec<License>)
    ensures
        licenses@ == default_license_list(),
{
    vec![License::Cc0, License::CcBy, License::CcBySa]
}

pub open spec fn default_license_list() -> Seq<License> {
    seq![License::Cc0, License::CcBy, License::CcBySa]
}

/// Every licence offered by default permits commercial use: the non-commercial ones can
/// only be searched for explicitly.
pub proof fn lemma_defaults_permit_commercial_use()
    ensures
        forall|i: int|
            0 <= i < default_license_list().len() ==> (#[trigger] default_license_list()[i]).permits_commercial_use(),
        !default_license_list().contains(License::CcByNc),
        !default_license_list().contains(License::SamplingPlus),
{
    assert(default_license_list()[0] != License::CcByNc);
    assert(default_license_list()[1] != License::CcByNc);
    assert(default_license_list()[2] != License::CcByNc);
    assert(default_license_list()[0] != License::SamplingPlus);
    assert(default_license_list()[1] != License::SamplingPlus);
    assert(default_license_list()[2] != License::SamplingPlus);
}

/// The name Freesound filters a licence by: its own human-readable one, not the URL it
/// returns.
pub open spec fn filter_name(license: License) -> Option<Seq<char>> {
    match license {
        License::Cc0 => Some("Creative Commons 0"@),
        License::CcBy => Some("Attribution"@),
        License::CcBySa => Some("Attribution Share Alike"@),
        License::CcByNc => Some("Attribution Noncommercial"@),
        License::SamplingPlus => Some("Sampling+"@),
        License::Other(_) => None,
    }
}

pub fn freesound_license_name(license: &License) -> (name: Option<&'static str>)
    ensures
        match filter_name(*license) {
            Some(n) => name matches Some(s) && s@ == n,
            None => name is None,
        },
{
    match license {
        License::Cc0 => Some("Creative Commons 0"),
        License::CcBy => Some("Attribution"),
        License::CcBySa => Some("Attribution Share Alike"),
        License::CcByNc => Some("Attribution Noncommercial"),
        License::SamplingPlus => Some("Sampling+"),
        License::Other(_) => None,
    }
}

/// The quoted filter names of the licences that have one, joined by " OR ".
pub open spec fn quoted_names(licenses: Seq<License>) -> Seq<char>
    decreases licenses.len(),
{
    if licenses.len() == 0 {
        Seq::empty()
    } else {
        let rest = quoted_names(licenses.drop_last());
        match filter_name(licenses.last()) {
            Some(n) => if rest.len() == 0 {
                seq!['"'] + n + seq!['"']
            } else {
                rest + " OR "@ + seq!['"'] + n + seq!['"']
            },
            None => rest,
        }
    }
}

/// The licence clause of a search filter, or `None` when it would restrict nothing.
pub fn license_filter(licenses: &Vec<License>) -> (clause: Option<String>)
    ensures
        quoted_names(licenses@).len() == 0 ==> clause is None,
        quoted_names(licenses@).len() > 0 ==> (clause matches Some(c) && c@ == "license:("@
            + quoted_names(licenses@) + ")"@),
{
    let mut names: Vec<char> = Vec::new();
    let mut i: usize = 0;
    while i < licenses.len()
        invariant
            i <= licenses@.len(),
            names@ == quoted_names(licenses@.take(i as int)),
        decreases licenses@.len() - i,
    {
        proof {
            assert(licenses@.take(i + 1).drop_last() =~= licenses@.take(i as int));
        }
        match freesound_license_name(&licenses[i]) {
            Some(name) => {
                if names.len() > 0 {
                    push_text(&mut names, " OR ");
                }
                names.push('"');
                push_text(&mut names, name);
                names.push('"');
            },
            None => {},
        }
        i = i + 1;
    }
    assert(licenses@.take(licenses@.len() as int) =~= licenses@);
    if names.len() == 0 {
        return None;
    }
    let mut clause: Vec<char> = Vec::new();
    push_text(&mut clause, "license:(");
    let ghost head = clause@;
    let mut j: usize = 0;
    while j < names.len()
        invariant
            j <= names@.len(),
            clause@ == head + names@.take(j as int),
        decreases names@.len() - j,
    {
        clause.push(names[j]);
        j = j + 1;
        assert(clause@ =~= head + names@.take(j as int));
    }
    assert(names@.take(names@.len() as int) =~= names@);
    push_text(&mut clause, ")");
    Some(string_of(clause.as_slice()))
}

/// The credit line a CC-BY licence requires, in the form Freesound asks for:
/// `"name" by author — page (licence)`.
pub fn attribution(name: &str, username: &str, page_url: &str, license: &License) -> (line: String)
    ensures
        line@ == seq!['"'] + name@ + "\" by "@ + username@ + " \u{2014} "@ + page_url@ + " ("@
            + license.short_name_view() + ")"@,
{
    let mut out: Vec<char> = Vec::new();
    out.push('"');
    push_text(&mut out, name);
    push_text(&mut out, "\" by ");
    push_text(&mut out, username);
    push_text(&mut out, " \u{2014} ");
    push_text(&mut out, page_url);
    push_text(&mut out, " (");
    push_text(&mut out, license.short_name());
    push_text(&mut out, ")");
    string_of(out.as_slice())
}

/// A sound's page on Freesound, for attribution and for "show me this on Freesound".
pub open spec fn page_url_view(id: u64) -> Seq<char> {
    "https://freesound.org/s/"@ + decimal(id as nat) + "/"@
}

/// The page of the sound with this Freesound id.
pub fn sound_page_url(id: u64) -> (url: String)
    ensures
        url@ == page_url_view(id),
{
    let mut out: Vec<char> = Vec::new();
    push_text(&mut out, "https://freesound.org/s/");
    push_text(&mut out, decimal_text(id).as_str());
    push_text(&mut out, "/");
    string_of(out.as_slice())
}

} // verus!
