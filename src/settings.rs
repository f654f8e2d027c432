//! Command-line switches, read from an argument list.
use vstd::prelude::*;
use crate::text::push_char;

verus! {

/// `pat` occurs in `s` starting at position `i`.
pub open spec fn occurs_at(s: Seq<char>, pat: Seq<char>, i: int) -> bool {
    0 <= i && i + pat.len() <= s.len() && s.subrange(i, i + pat.len()) == pat
}

/// `pat` occurs somewhere in `s`.
pub open spec fn occurs_in(s: Seq<char>, pat: Seq<char>) -> bool {
    exists|i: int| #[trigger] occurs_at(s, pat, i)
}

/// `i` is the first argument that holds `switch`.
pub open spec fn first_holding(args: Seq<String>, switch: Seq<char>, i: int) -> bool {
    &&& 0 <= i < args.len()
    &&& occurs_in(args[i]@, switch)
    &&& forall|j: int| 0 <= j < i ==> !occurs_in(#[trigger] args[j]@, switch)
}

/// `i` is the position of the first `=` in `s`.
pub open spec fn first_equals(s: Seq<char>, i: int) -> bool {
    &&& 0 <= i < s.len()
    &&& s[i] == '='
    &&& forall|j: int| 0 <= j < i ==> #[trigger] s[j] != '='
}

/// `r` is the text after the first `=` of the first argument that holds
/// `switch`, or `None` where no argument holds it or that one has no `=`.
pub open spec fn is_switch_field(args: Seq<String>, switch: Seq<char>, r: Option<String>) -> bool {
    &&& r matches Some(f) ==> exists|i: int, e: int|
        first_holding(args, switch, i) && #[trigger] first_equals(args[i]@, e) && f@
            == args[i]@.subrange(e + 1, args[i]@.len() as int)
    &&& r is None ==> forall|i: int|
        #[trigger] first_holding(args, switch, i) ==> forall|e: int|
            !#[trigger] first_equals(args[i]@, e)
}

/// What the command line asks for.
#[derive(Debug, Clone)]
pub struct Settings {
    pub help: bool,
    pub input_is_hex: bool,
    pub hex_string: Option<String>,
    pub eq_xor: bool,
    pub eq_hex_comp: Option<String>,
    pub find_1xor: bool,
    pub find_1xor_candidates: bool,
    pub file_path: Option<String>,
}

fn text_of(s: &str) -> (r: Vec<char>)
    ensures
        r@ == s@,
{
    let n = s.unicode_len();
    let mut chars: Vec<char> = Vec::new();
    for i in 0..n
        invariant
            n == s@.len(),
            chars@ == s@.take(i as int),
    {
        chars.push(s.get_char(i));
        assert(s@.take(i + 1) =~= s@.take(i as int).push(s@[i as int]));
    }
    assert(s@.take(n as int) =~= s@);
    chars
}

fn matches_at(s: &Vec<char>, pat: &Vec<char>, i: usize) -> (r: bool)
    requires
        i + pat@.len() <= s@.len(),
    ensures
        r == occurs_at(s@, pat@, i as int),
{
    let n = s.len();
    let mut j: usize = 0;
    while j < pat.len()
        invariant
            n == s@.len(),
            j <= pat@.len(),
            i + pat@.len() <= s@.len(),
            forall|m: int| 0 <= m < j ==> s@[i + m] == pat@[m],
        decreases pat@.len() - j,
    {
        if s[i + j] != pat[j] {
            assert(s@.subrange(i as int, i + pat@.len())[j as int] != pat@[j as int]);
            return false;
        }
        j = j + 1;
    }
    assert(s@.subrange(i as int, i + pat@.len()) =~= pat@);
    true
}

fn holds(s: &Vec<char>, pat: &Vec<char>) -> (r: bool)
    ensures
        r == occurs_in(s@, pat@),
{
    if pat.len() == 0 {
        assert(s@.subrange(0, 0) =~= pat@);
        assert(occurs_at(s@, pat@, 0));
        return true;
    }
    if pat.len() > s.len() {
        return false;
    }
    let positions = s.len() - pat.len() + 1;
    for i in 0..positions
        invariant
            positions == s@.len() - pat@.len() + 1,
            1 <= pat@.len() <= s@.len(),
            forall|m: int| 0 <= m < i ==> !#[trigger] occurs_at(s@, pat@, m),
    {
        if matches_at(s, pat, i) {
            return true;
        }
    }
    false
}

/// The first argument that holds `switch`, if any.
pub fn find_switch(args: &Vec<String>, switch: &str) -> (r: Option<String>)
    ensures
        r matches Some(a) ==> exists|i: int| first_holding(args@, switch@, i) && a@ == args@[i]@,
        r is None ==> forall|i: int| 0 <= i < args@.len() ==> !occurs_in(#[trigger] args@[i]@, switch@),
{
    let pat = text_of(switch);
    for i in 0..args.len()
        invariant
            pat@ == switch@,
            forall|j: int| 0 <= j < i ==> !occurs_in(#[trigger] args@[j]@, switch@),
    {
        let arg = text_of(args[i].as_str());
        if holds(&arg, &pat) {
            let found = args[i].clone();
            assert(first_holding(args@, switch@, i as int));
            return Some(found);
        }
    }
    None
}

/// The text after the first `=` of the first argument that holds `switch`;
/// `None` where no argument holds it or that argument has no `=`.
pub fn get_switch_field(args: &Vec<String>, switch: &str) -> (r: Option<String>)
    ensures
        is_switch_field(args@, switch@, r),
{
    let full = match find_switch(args, switch) {
        Some(a) => a,
        None => {
            return None;
        },
    };
    let ghost i = choose|i: int| first_holding(args@, switch@, i) && full@ == args@[i]@;
    let chars = text_of(full.as_str());
    let mut e: usize = 0;
    while e < chars.len() && chars[e] != '='
        invariant
            e <= chars@.len(),
            forall|j: int| 0 <= j < e ==> #[trigger] chars@[j] != '=',
        decreases chars@.len() - e,
    {
        e = e + 1;
    }
    if e == chars.len() {
        assert forall|ii: int| #[trigger] first_holding(args@, switch@, ii) implies forall|ee: int|
            !#[trigger] first_equals(args@[ii]@, ee) by {
            assert(ii == i);
        }
        return None;
    }
    assert(first_equals(args@[i]@, e as int));
    let mut field = String::new();
    let mut m: usize = e + 1;
    while m < chars.len()
        invariant
            e < m <= chars@.len(),
            field@ == chars@.subrange(e + 1, m as int),
        decreases chars@.len() - m,
    {
        push_char(&mut field, chars[m]);
        assert(chars@.subrange(e + 1, m + 1) =~= chars@.subrange(e + 1, m as int).push(chars@[m as int]));
        m = m + 1;
    }
    Some(field)
}

/// Reads the switches: `-help`, `-?` or `-v` ask for help; `-h=<hex>` gives
/// the input; `-exor=<hex>` XORs it with a second buffer; `-f1xor` ranks the
/// keys for it; `-f1xc=<path>` screens the lines of a file.
pub fn get_settings(args: &Vec<String>) -> (r: Settings)
    ensures
        r.help == (exists|i: int| 0 <= i < args@.len() && (occurs_in(#[trigger] args@[i]@, "-help"@)
            || occurs_in(args@[i]@, "-?"@) || occurs_in(args@[i]@, "-v"@))),
        r.input_is_hex == (exists|i: int| 0 <= i < args@.len() && occurs_in(#[trigger] args@[i]@, "-h"@)),
        r.eq_xor == (exists|i: int| 0 <= i < args@.len() && occurs_in(#[trigger] args@[i]@, "-exor"@)),
        r.find_1xor == (exists|i: int| 0 <= i < args@.len() && occurs_in(#[trigger] args@[i]@, "-f1xor"@)),
        r.find_1xor_candidates == (exists|i: int|
            0 <= i < args@.len() && occurs_in(#[trigger] args@[i]@, "-f1xc"@)),
        is_switch_field(args@, "-h"@, r.hex_string),
        is_switch_field(args@, "-exor"@, r.eq_hex_comp),
        is_switch_field(args@, "-f1xc"@, r.file_path),
{
    let help = find_switch(args, "-help").is_some() || find_switch(args, "-?").is_some()
        || find_switch(args, "-v").is_some();
    Settings {
        help,
        input_is_hex: find_switch(args, "-h").is_some(),
        hex_string: get_switch_field(args, "-h"),
        eq_xor: find_switch(args, "-exor").is_some(),
        eq_hex_comp: get_switch_field(args, "-exor"),
        find_1xor: find_switch(args, "-f1xor").is_some(),
        find_1xor_candidates: find_switch(args, "-f1xc").is_some(),
        file_path: get_switch_field(args, "-f1xc"),
    }
}

} // verus!
