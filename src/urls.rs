use vstd::prelude::*;
use crate::prompt::{idecimal, idecimal_string};
use crate::text::{push_chars, push_str_chars, string_of};
use crate::worker::{decimal, decimal_chars};

verus! {

pub const WQB_API_URL: &'static str = "https://api.worldquantbrain.com";

pub const URL_ALPHAS: &'static str = "https://api.worldquantbrain.com/alphas";

pub const URL_AUTHENTICATION: &'static str = "https://api.worldquantbrain.com/authentication";

pub const URL_DATASETS: &'static str = "https://api.worldquantbrain.com/data-sets";

pub const URL_DATAFIELDS: &'static str = "https://api.worldquantbrain.com/data-fields";

pub const URL_OPERATORS: &'static str = "https://api.worldquantbrain.com/operators";

pub const URL_SIMULATIONS: &'static str = "https://api.worldquantbrain.com/simulations";

pub const URL_USERS_SELF: &'static str = "https://api.worldquantbrain.com/users/self";

pub const URL_USERS_SELF_ALPHAS: &'static str = "https://api.worldquantbrain.com/users/self/alphas";

pub const URL_ALPHAS_SUBMIT_BASE: &'static str = "https://api.worldquantbrain.com:443/alphas";

/// `base`, a slash, `id`, then `suffix`.
fn join_path(base: &str, id: &str, suffix: &str) -> (r: String)
    ensures
        r@ == base@ + "/"@ + id@ + suffix@,
{
    let mut s = base.to_string();
    s.append("/");
    s.append(id);
    s.append(suffix);
    s
}

/// The resource of one alpha.
pub fn url_alphas_alphaid(alpha_id: &str) -> (r: String)
    ensures
        r@ == URL_ALPHAS@ + "/"@ + alpha_id@,
{
    let r = join_path(URL_ALPHAS, alpha_id, "");
    proof {
        reveal_strlit("");
        assert(r@ =~= URL_ALPHAS@ + "/"@ + alpha_id@);
    }
    r
}

/// The check endpoint of one alpha.
pub fn url_alphas_alphaid_check(alpha_id: &str) -> (r: String)
    ensures
        r@ == URL_ALPHAS@ + "/"@ + alpha_id@ + "/check"@,
{
    join_path(URL_ALPHAS, alpha_id, "/check")
}

/// The submit endpoint of one alpha, addressed with `:443` spelled out.
pub fn url_alphas_alphaid_submit(alpha_id: &str) -> (r: String)
    ensures
        r@ == URL_ALPHAS_SUBMIT_BASE@ + "/"@ + alpha_id@ + "/submit"@,
{
    join_path(URL_ALPHAS_SUBMIT_BASE, alpha_id, "/submit")
}

/// The resource of one dataset.
pub fn url_datasets_datasetid(dataset_id: &str) -> (r: String)
    ensures
        r@ == URL_DATASETS@ + "/"@ + dataset_id@,
{
    let r = join_path(URL_DATASETS, dataset_id, "");
    proof {
        reveal_strlit("");
        assert(r@ =~= URL_DATASETS@ + "/"@ + dataset_id@);
    }
    r
}

/// The resource of one data field.
pub fn url_datafields_fieldid(field_id: &str) -> (r: String)
    ensures
        r@ == URL_DATAFIELDS@ + "/"@ + field_id@,
{
    let r = join_path(URL_DATAFIELDS, field_id, "");
    proof {
        reveal_strlit("");
        assert(r@ =~= URL_DATAFIELDS@ + "/"@ + field_id@);
    }
    r
}

/// The resource of one simulation.
pub fn url_simulation(simulation_id: &str) -> (r: String)
    ensures
        r@ == URL_SIMULATIONS@ + "/"@ + simulation_id@,
{
    let r = join_path(URL_SIMULATIONS, simulation_id, "");
    proof {
        reveal_strlit("");
        assert(r@ =~= URL_SIMULATIONS@ + "/"@ + simulation_id@);
    }
    r
}

pub const MAX_PAGE_SIZE: usize = 50;
pub const MAX_PAGED_ROWS: usize = 10000;

/// A page size: 50 unless given, and held within 1..=50.
pub open spec fn page_size(limit: Option<usize>) -> usize {
    let l = match limit {
        Some(x) => x,
        None => MAX_PAGE_SIZE,
    };
    if l > MAX_PAGE_SIZE { MAX_PAGE_SIZE } else if l < 1 { 1 } else { l }
}

/// A page offset: 0 unless given, and at most `10000 - size`.
pub open spec fn page_offset(offset: Option<usize>, size: usize) -> usize {
    let o = match offset {
        Some(x) => x,
        None => 0,
    };
    if o > MAX_PAGED_ROWS - size { (MAX_PAGED_ROWS - size) as usize } else { o }
}

/// The field-search query for one (region, delay, universe) page.
pub fn url_search_fields(region: &str, delay: i32, universe: &str, limit: Option<usize>, offset: Option<usize>) -> (r: String)
    ensures
        r@ == URL_DATAFIELDS@ + "?region="@ + region@ + "&delay="@ + idecimal(delay as int) + "&universe="@
            + universe@ + "&instrumentType=EQUITY&limit="@ + decimal(page_size(limit) as nat) + "&offset="@
            + decimal(page_offset(offset, page_size(limit)) as nat),
{
    let l0 = match limit {
        Some(x) => x,
        None => MAX_PAGE_SIZE,
    };
    let size = if l0 > MAX_PAGE_SIZE {
        MAX_PAGE_SIZE
    } else if l0 < 1 {
        1
    } else {
        l0
    };
    let o0 = match offset {
        Some(x) => x,
        None => 0,
    };
    let off = if o0 > MAX_PAGED_ROWS - size {
        MAX_PAGED_ROWS - size
    } else {
        o0
    };
    let mut c: Vec<char> = Vec::new();
    push_str_chars(&mut c, URL_DATAFIELDS);
    push_str_chars(&mut c, "?region=");
    push_str_chars(&mut c, region);
    push_str_chars(&mut c, "&delay=");
    let d = idecimal_string(delay);
    push_str_chars(&mut c, d.as_str());
    push_str_chars(&mut c, "&universe=");
    push_str_chars(&mut c, universe);
    push_str_chars(&mut c, "&instrumentType=EQUITY&limit=");
    let ls = decimal_chars(size as u64);
    push_chars(&mut c, &ls);
    push_str_chars(&mut c, "&offset=");
    let os = decimal_chars(off as u64);
    push_chars(&mut c, &os);
    string_of(c.as_slice())
}

/// One page of the dataset index, the size held within 1..=50.
pub fn url_list_datasets(limit: usize, offset: usize) -> (r: String)
    ensures
        r@ == URL_DATASETS@ + "?limit="@ + decimal(page_size(Some(limit)) as nat) + "&offset="@ + decimal(offset as nat),
{
    let size = if limit > MAX_PAGE_SIZE {
        MAX_PAGE_SIZE
    } else if limit < 1 {
        1
    } else {
        limit
    };
    let mut c: Vec<char> = Vec::new();
    push_str_chars(&mut c, URL_DATASETS);
    push_str_chars(&mut c, "?limit=");
    let ls = decimal_chars(size as u64);
    push_chars(&mut c, &ls);
    push_str_chars(&mut c, "&offset=");
    let os = decimal_chars(offset as u64);
    push_chars(&mut c, &os);
    string_of(c.as_slice())
}

} // verus!
