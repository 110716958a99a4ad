//! Names of query types and classes, for reporting.
use vstd::prelude::*;

verus! {

/// The type of a text record.
pub const TYPE_TXT: u16 = 16;
/// The Internet class.
pub const QCLASS_IN: u16 = 1;
/// The class that matches any class.
pub const QCLASS_ANY: u16 = 5;

/// The mnemonic of a query type, or "UNKNOWN".
pub open spec fn query_type_name(p: u16) -> Seq<char> {
    if p == 1 {
        "A"@
    } else if p == 2 {
        "NS"@
    } else if p == 3 {
        "MD"@
    } else if p == 4 {
        "MF"@
    } else if p == 5 {
        "CNAME"@
    } else if p == 6 {
        "SOA"@
    } else if p == 7 {
        "MB"@
    } else if p == 8 {
        "MG"@
    } else if p == 9 {
        "MR"@
    } else if p == 10 {
        "NULL"@
    } else if p == 11 {
        "WKS"@
    } else if p == 12 {
        "PTR"@
    } else if p == 13 {
        "HINFO"@
    } else if p == 14 {
        "MINFO"@
    } else if p == 15 {
        "MX"@
    } else if p == TYPE_TXT {
        "TXT"@
    } else if p == 252 {
        "AXFR"@
    } else if p == 253 {
        "MAILB"@
    } else if p == 254 {
        "MAILA"@
    } else {
        "UNKNOWN"@
    }
}

/// The mnemonic of a query class, or "UNKNOWN".
pub open spec fn query_class_name(p: u16) -> Seq<char> {
    if p == QCLASS_IN {
        "IN"@
    } else if p == 2 {
        "CS"@
    } else if p == 3 {
        "CH"@
    } else if p == 4 {
        "HS"@
    } else if p == QCLASS_ANY {
        "*"@
    } else {
        "UNKNOWN"@
    }
}

pub fn query_type_to_string_slice(p: u16) -> (r: &'static str)
    ensures
        r@ == query_type_name(p),
{
    match p {
        1 => "A",
        2 => "NS",
        3 => "MD",
        4 => "MF",
        5 => "CNAME",
        6 => "SOA",
        7 => "MB",
        8 => "MG",
        9 => "MR",
        10 => "NULL",
        11 => "WKS",
        12 => "PTR",
        13 => "HINFO",
        14 => "MINFO",
        15 => "MX",
        TYPE_TXT => "TXT",
        252 => "AXFR",
        253 => "MAILB",
        254 => "MAILA",
        _ => "UNKNOWN",
    }
}

pub fn query_class_to_string_slice(p: u16) -> (r: &'static str)
    ensures
        r@ == query_class_name(p),
{
    match p {
        QCLASS_IN => "IN",
        2 => "CS",
        3 => "CH",
        4 => "HS",
        QCLASS_ANY => "*",
        _ => "UNKNOWN",
    }
}

/// Each query type and class is named by its mnemonic, and every other value
/// by "UNKNOWN".
pub proof fn names_are_the_mnemonics(p: u16)
    ensures
        query_type_name(1) == "A"@,
        query_type_name(2) == "NS"@,
        query_type_name(3) == "MD"@,
        query_type_name(4) == "MF"@,
        query_type_name(5) == "CNAME"@,
        query_type_name(6) == "SOA"@,
        query_type_name(7) == "MB"@,
        query_type_name(8) == "MG"@,
        query_type_name(9) == "MR"@,
        query_type_name(10) == "NULL"@,
        query_type_name(11) == "WKS"@,
        query_type_name(12) == "PTR"@,
        query_type_name(13) == "HINFO"@,
        query_type_name(14) == "MINFO"@,
        query_type_name(15) == "MX"@,
        query_type_name(16) == "TXT"@,
        query_type_name(252) == "AXFR"@,
        query_type_name(253) == "MAILB"@,
        query_type_name(254) == "MAILA"@,
        !(1 <= p <= 16 || 252 <= p <= 254) ==> query_type_name(p) == "UNKNOWN"@,
        query_class_name(1) == "IN"@,
        query_class_name(2) == "CS"@,
        query_class_name(3) == "CH"@,
        query_class_name(4) == "HS"@,
        query_class_name(5) == "*"@,
        !(1 <= p <= 5) ==> query_class_name(p) == "UNKNOWN"@,
{
}

} // verus!
