//! The dead-key table: which composed letters each dead accent produces.
use crate::text::same_text;
use vstd::prelude::*;

verus! {

/// `(base letter, composed character)` pairs that the dead key named `name`
/// produces; empty for a name the table does not know.
pub open spec fn dead_key_pairs(name: Seq<char>) -> Seq<(char, char)> {
    if name == "dead_acute"@ {
        seq![('a', 'á'), ('e', 'é'), ('i', 'í'), ('o', 'ó'), ('u', 'ú'), ('y', 'ý'), ('c', 'ć'), ('n', 'ń'), ('s', 'ś'), ('z', 'ź')]
    } else if name == "dead_grave"@ {
        seq![('a', 'à'), ('e', 'è'), ('i', 'ì'), ('o', 'ò'), ('u', 'ù')]
    } else if name == "dead_circumflex"@ {
        seq![('a', 'â'), ('e', 'ê'), ('i', 'î'), ('o', 'ô'), ('u', 'û')]
    } else if name == "dead_diaeresis"@ {
        seq![('a', 'ä'), ('e', 'ë'), ('i', 'ï'), ('o', 'ö'), ('u', 'ü'), ('y', 'ÿ')]
    } else if name == "dead_tilde"@ {
        seq![('a', 'ã'), ('n', 'ñ'), ('o', 'õ')]
    } else if name == "dead_cedilla"@ {
        seq![('c', 'ç'), ('s', 'ş')]
    } else if name == "dead_ogonek"@ {
        seq![('a', 'ą'), ('e', 'ę'), ('i', 'į'), ('u', 'ų')]
    } else if name == "dead_caron"@ {
        seq![('c', 'č'), ('s', 'š'), ('z', 'ž'), ('r', 'ř'), ('e', 'ě')]
    } else if name == "dead_breve"@ {
        seq![('a', 'ă'), ('g', 'ğ')]
    } else if name == "dead_macron"@ {
        seq![('a', 'ā'), ('e', 'ē'), ('i', 'ī'), ('o', 'ō'), ('u', 'ū')]
    } else if name == "dead_abovedot"@ {
        seq![('e', 'ė'), ('z', 'ż')]
    } else if name == "dead_abovering"@ {
        seq![('a', 'å'), ('u', 'ů')]
    } else if name == "dead_stroke"@ {
        seq![('l', 'ł'), ('o', 'ø')]
    } else {
        Seq::empty()
    }
}

/// The `(base letter, composed character)` pairs of the dead key whose keysym
/// name is `dead_type`.
pub fn get_dead_key_combinations(dead_type: &str) -> (r: Vec<(char, char)>)
    ensures
        r@ == dead_key_pairs(dead_type@),
{
    if same_text(dead_type, "dead_acute") {
        vec![('a', 'á'), ('e', 'é'), ('i', 'í'), ('o', 'ó'), ('u', 'ú'), ('y', 'ý'), ('c', 'ć'), ('n', 'ń'), ('s', 'ś'), ('z', 'ź')]
    } else if same_text(dead_type, "dead_grave") {
        vec![('a', 'à'), ('e', 'è'), ('i', 'ì'), ('o', 'ò'), ('u', 'ù')]
    } else if same_text(dead_type, "dead_circumflex") {
        vec![('a', 'â'), ('e', 'ê'), ('i', 'î'), ('o', 'ô'), ('u', 'û')]
    } else if same_text(dead_type, "dead_diaeresis") {
        vec![('a', 'ä'), ('e', 'ë'), ('i', 'ï'), ('o', 'ö'), ('u', 'ü'), ('y', 'ÿ')]
    } else if same_text(dead_type, "dead_tilde") {
        vec![('a', 'ã'), ('n', 'ñ'), ('o', 'õ')]
    } else if same_text(dead_type, "dead_cedilla") {
        vec![('c', 'ç'), ('s', 'ş')]
    } else if same_text(dead_type, "dead_ogonek") {
        vec![('a', 'ą'), ('e', 'ę'), ('i', 'į'), ('u', 'ų')]
    } else if same_text(dead_type, "dead_caron") {
        vec![('c', 'č'), ('s', 'š'), ('z', 'ž'), ('r', 'ř'), ('e', 'ě')]
    } else if same_text(dead_type, "dead_breve") {
        vec![('a', 'ă'), ('g', 'ğ')]
    } else if same_text(dead_type, "dead_macron") {
        vec![('a', 'ā'), ('e', 'ē'), ('i', 'ī'), ('o', 'ō'), ('u', 'ū')]
    } else if same_text(dead_type, "dead_abovedot") {
        vec![('e', 'ė'), ('z', 'ż')]
    } else if same_text(dead_type, "dead_abovering") {
        vec![('a', 'å'), ('u', 'ů')]
    } else if same_text(dead_type, "dead_stroke") {
        vec![('l', 'ł'), ('o', 'ø')]
    } else {
        Vec::new()
    }
}

} // verus!
