//! Heuristic domain checks: the byte statistics behind the entropy test, the
//! top-level-domain check and the label-syntax ("unicode security") check.

use vstd::prelude::*;
use vstd::string::StringSliceAdditionalSpecFns;
use crate::text::{chars_eq, chars_of, lemma_split_on_nonempty, seqs_of, split_chars, split_on, starts_with_chars, starts_with_seq};

verus! {

/// Top-level domains accepted by the TLD check: a static table of generic,
/// sponsored, brand and country-code domains of the IANA root zone, separated
/// by single spaces.
pub const KNOWN_TLDS: &'static str = "com net org edu gov mil int arpa info biz name pro aero coop museum jobs mobi travel tel cat asia post xxx app dev page new blog cloud online site website store shop tech top xyz club live news space email digital network agency company solutions services academy center link click help art design media studio world today life love global group guide host house ltd market money one plus run social software systems team tools win work zone ac ad ae af ag ai al am ao aq ar as at au aw ax az ba bb bd be bf bg bh bi bj bm bn bo bq br bs bt bw by bz ca cc cd cf cg ch ci ck cl cm cn co cr cu cv cw cx cy cz de dj dk dm do dz ec ee eg er es et eu fi fj fk fm fo fr ga gb gd ge gf gg gh gi gl gm gn gp gq gr gs gt gu gw gy hk hm hn hr ht hu id ie il im in io iq ir is it je jm jo jp ke kg kh ki km kn kp kr kw ky kz la lb lc li lk lr ls lt lu lv ly ma mc md me mg mh mk ml mm mn mo mp mq mr ms mt mu mv mw mx my mz na nc ne nf ng ni nl no np nr nu nz om pa pe pf pg ph pk pl pm pn pr ps pt pw py qa re ro rs ru rw sa sb sc sd se sg sh si sk sl sm sn so sr ss st su sv sx sy sz tc td tf tg th tj tk tl tm tn to tr tt tv tw tz ua ug uk us uy uz va vc ve vg vi vn vu wf ws ye yt za zm zw accountant accountants actor adult africa airforce amsterdam apartments archi army associates attorney auction audio auto autos baby band bank bar barcelona bargains baseball basketball bayern beauty beer berlin best bet bible bid bike bingo bio black blackfriday blue boats bond boo book boston bot boutique box broker brussels build builders business buzz cab cafe cam camera camp capetown capital car cards care career careers cars casa cash casino catering ceo charity chat cheap christmas church city claims cleaning clinic clothing coach codes coffee college cologne community compare computer condos construction consulting contractors cooking cool corsica country coupons courses credit creditcard cricket cruises cymru dad dance date dating day deals degree delivery democrat dental dentist diamonds diet direct directory discount doctor dog domains download earth eat eco education energy engineer engineering enterprises equipment esq estate eus events exchange expert exposed express fail faith family fan fans farm fashion film finance financial fish fishing fit fitness flights florist flowers fly foo food football forsale forum foundation free fun fund furniture futbol fyi gal gallery game games garden gay gent gift gifts gives glass gle gmbh gold golf graphics gratis green gripe guitars guru hamburg haus health healthcare here hiphop hiv hockey holdings holiday homes horse hospital hosting hot hotel hotels how icu immo immobilien inc industries ing ink institute insure international investments irish ist istanbul jetzt jewelry juegos kaufen kids kim kitchen kiwi koeln kyoto land lat law lawyer lease legal lgbt lighting limited limo llc loan loans lol london ltda luxury madrid maison makeup management map marketing markets mba med meet melbourne meme memorial men menu miami mobile moda moe mom monster mortgage moscow motorcycles mov movie music nagoya navy nexus ngo ninja nrw nyc okinawa ong onl organic osaka paris partners parts party pet phd photo photography photos pics pictures pink pizza place plumbing poker porn press productions prof promo properties property pub quebec quest racing radio realestate realty recipes red rehab reise reisen ren rent rentals repair report republican rest restaurant review reviews rich rip rocks rodeo rsvp rugby ruhr saarland sale salon sarl school schule science scot search security sex sexy shiksha shoes shopping show singles ski skin soccer solar soy spa sport srl stream study style sucks supplies supply support surf surgery swiss sydney taipei tattoo tax taxi technology tennis theater theatre tickets tienda tips tires tirol tokyo tours town toys trade trading training tube university uno vacations vegas ventures vet viajes video villas vin vip vision vlaanderen vodka vote voting voto voyage wales wang watch webcam wedding wien wiki wine works wtf yoga yokohama zip zuerich abc amazon android apple aws barclays bbc bmw canon channel chrome cisco citi dell gmail goog google hsbc ibm intel microsoft netflix play samsung sony toyota visa windows xbox yahoo youtube bv sj";

/// The last `.`-separated label of a domain (the whole domain when it has no dot).
pub open spec fn last_label(domain: Seq<char>) -> Seq<char> {
    split_on(domain, '.').last()
}

/// The TLD check: the domain's last label is one of the known top-level domains.
pub open spec fn is_tld_legal_spec(domain: Seq<char>) -> bool {
    split_on(KNOWN_TLDS@, ' ').contains(last_label(domain))
}

/// Whether the top-level domain of `domain` is a known one.
pub fn is_tld_legal(domain: &str) -> (r: bool)
    ensures
        r == is_tld_legal_spec(domain@),
{
    let d = chars_of(domain);
    let labels = split_chars(d.as_slice(), '.');
    proof {
        lemma_split_on_nonempty(d@, '.');
    }
    let n = labels.len();
    assert(seqs_of(labels@)[n - 1] == labels@[n - 1]@);
    let tld = &labels[n - 1];
    let table = chars_of(KNOWN_TLDS);
    let known = split_chars(table.as_slice(), ' ');
    let ghost known_seqs = split_on(KNOWN_TLDS@, ' ');
    for i in 0..known.len()
        invariant
            seqs_of(known@) == known_seqs,
            known_seqs == split_on(KNOWN_TLDS@, ' '),
            tld@ == last_label(domain@),
            forall|j: int| 0 <= j < i ==> known_seqs[j] != tld@,
    {
        assert(known@[i as int]@ == known_seqs[i as int]);
        if chars_eq(known[i].as_slice(), tld.as_slice()) {
            assert(known_seqs[i as int] == last_label(domain@));
            return true;
        }
    }
    false
}

/// A character a DNS label may hold: ASCII letter, digit or hyphen.
pub open spec fn is_ldh_char(c: char) -> bool {
    ('a' <= c && c <= 'z') || ('A' <= c && c <= 'Z') || ('0' <= c && c <= '9') || c == '-'
}

pub open spec fn ace_prefix() -> Seq<char> {
    seq!['x', 'n', '-', '-']
}

/// A label that passes the security check: 1 to 63 letters, digits and hyphens,
/// not starting or ending with a hyphen, and not an IDNA `xn--` label (one that
/// stands for non-ASCII text).
pub open spec fn is_secure_label(l: Seq<char>) -> bool {
    &&& 1 <= l.len() <= 63
    &&& forall|i: int| 0 <= i < l.len() ==> #[trigger] is_ldh_char(l[i])
    &&& l[0] != '-'
    &&& l.last() != '-'
    &&& !starts_with_seq(l, ace_prefix())
}

/// The domain check: at most 253 characters, and every label secure.
pub open spec fn is_domain_secure_spec(domain: Seq<char>) -> bool {
    &&& domain.len() <= 253
    &&& forall|i: int| 0 <= i < split_on(domain, '.').len() ==> #[trigger] is_secure_label(
        split_on(domain, '.')[i],
    )
}

fn is_ldh_char_exec(c: char) -> (r: bool)
    ensures
        r == is_ldh_char(c),
{
    ('a' <= c && c <= 'z') || ('A' <= c && c <= 'Z') || ('0' <= c && c <= '9') || c == '-'
}

fn is_secure_label_exec(l: &[char]) -> (r: bool)
    ensures
        r == is_secure_label(l@),
{
    if l.len() < 1 || l.len() > 63 {
        return false;
    }
    for i in 0..l.len()
        invariant
            forall|j: int| 0 <= j < i ==> #[trigger] is_ldh_char(l@[j]),
    {
        if !is_ldh_char_exec(l[i]) {
            return false;
        }
    }
    let prefix = ['x', 'n', '-', '-'];
    assert(prefix@ == ace_prefix());
    l[0] != '-' && l[l.len() - 1] != '-' && !starts_with_chars(l, &prefix)
}

/// Whether every label of `domain` is plain, well-formed ASCII.
pub fn is_domain_unicode_secure(domain: &str) -> (r: bool)
    ensures
        r == is_domain_secure_spec(domain@),
{
    let d = chars_of(domain);
    if d.len() > 253 {
        return false;
    }
    let labels = split_chars(d.as_slice(), '.');
    for i in 0..labels.len()
        invariant
            seqs_of(labels@) == split_on(d@, '.'),
            d@ == domain@,
            forall|j: int| 0 <= j < i ==> #[trigger] is_secure_label(split_on(d@, '.')[j]),
    {
        assert(labels@[i as int]@ == split_on(d@, '.')[i as int]);
        if !is_secure_label_exec(labels[i].as_slice()) {
            return false;
        }
    }
    true
}

/// How many times byte `b` occurs in `bytes`.
pub open spec fn byte_count(bytes: Seq<u8>, b: u8) -> nat
    decreases bytes.len(),
{
    if bytes.len() == 0 {
        0
    } else {
        byte_count(bytes.drop_last(), b) + if bytes.last() == b { 1nat } else { 0nat }
    }
}

proof fn lemma_byte_count_le(bytes: Seq<u8>, b: u8)
    ensures
        byte_count(bytes, b) <= bytes.len(),
    decreases bytes.len(),
{
    if bytes.len() > 0 {
        lemma_byte_count_le(bytes.drop_last(), b);
    }
}

/// The number of occurrences of every byte value in the UTF-8 encoding of
/// `domain`: the histogram from which the domain's Shannon entropy is computed.
pub fn byte_frequencies(domain: &str) -> (freq: Vec<usize>)
    ensures
        freq.len() == 256,
        forall|b: u8| #[trigger] freq@[b as int] == byte_count(domain.spec_bytes(), b),
{
    let bytes = domain.as_bytes();
    let mut freq: Vec<usize> = Vec::new();
    for k in 0..256usize
        invariant
            freq.len() == k,
            forall|j: int| 0 <= j < k ==> #[trigger] freq@[j] == 0,
    {
        freq.push(0);
    }
    for i in 0..bytes.len()
        invariant
            freq.len() == 256,
            bytes@ == domain.spec_bytes(),
            forall|b: u8| #[trigger] freq@[b as int] == byte_count(bytes@.take(i as int), b),
    {
        let b = bytes[i];
        let ghost t = bytes@.take(i + 1);
        assert(t.drop_last() == bytes@.take(i as int));
        proof {
            lemma_byte_count_le(bytes@.take(i as int), b);
        }
        let c = freq[b as usize];
        freq.set(b as usize, c + 1);
        assert forall|x: u8| #[trigger] freq@[x as int] == byte_count(t, x) by {
            if x != b {
                assert(freq@[x as int] == byte_count(bytes@.take(i as int), x));
            }
        }
    }
    assert(bytes@.take(bytes.len() as int) == bytes@);
    freq
}

/// The entropy test applies only to domains of eight bytes or more.
pub fn entropy_applies(domain: &str) -> (r: bool)
    ensures
        r == (domain.spec_bytes().len() >= 8),
{
    domain.as_bytes().len() >= 8
}

} // verus!
