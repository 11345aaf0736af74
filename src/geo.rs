use vstd::prelude::*;
use vstd::string::StringExecFns;

verus! {

/// The answer of the IP geolocation service, as far as routing reads it.
/// Coordinates are kept as the decimal text the service sent.
pub struct IpLocation {
    pub lat: Option<String>,
    pub lon: Option<String>,
    pub country: Option<String>,
    pub region_name: Option<String>,
    pub city: Option<String>,
    pub status: String,
}

pub open spec fn or_dash(s: Option<String>) -> Seq<char> {
    match s {
        Some(t) => t@,
        None => "-"@,
    }
}

/// "city, region, country", with "-" for a part the service left out.
pub open spec fn place_text(l: IpLocation) -> Seq<char> {
    or_dash(l.city) + ", "@ + or_dash(l.region_name) + ", "@ + or_dash(l.country)
}

pub open spec fn map_link(lat: Seq<char>, lon: Seq<char>) -> Seq<char> {
    "https://www.google.com/maps?q="@ + lat + ","@ + lon
}

/// The location text and map link recorded for a lookup; a lookup that
/// failed (`None`), did not succeed, or gave no coordinates yields two empty
/// texts.
pub open spec fn resolved(l: Option<IpLocation>) -> (Seq<char>, Seq<char>) {
    match l {
        Some(l) => if l.status@ == "success"@ && l.lat is Some && l.lon is Some {
            (place_text(l), map_link(l.lat->Some_0@, l.lon->Some_0@))
        } else {
            (Seq::empty(), Seq::empty())
        },
        None => (Seq::empty(), Seq::empty()),
    }
}

pub open spec fn lookup_url(ip: Seq<char>) -> Seq<char> {
    "http://ip-api.com/json/"@ + ip
}

/// The address at which the geolocation service describes `ip`.
pub fn location_lookup_url(ip: &str) -> (r: String)
    ensures
        r@ == lookup_url(ip@),
{
    let mut url = String::from_str("http://ip-api.com/json/");
    url.append(ip);
    url
}

fn part_or_dash(s: &Option<String>) -> (r: String)
    ensures
        r@ == or_dash(*s),
{
    match s {
        Some(t) => t.clone(),
        None => String::from_str("-"),
    }
}

/// Turns a geolocation answer into the location text and map link of a
/// visit. Best effort: anything short of a successful answer with both
/// coordinates gives two empty texts, never an error.
pub fn location_from_lookup(lookup: Option<IpLocation>) -> (r: (String, String))
    ensures
        (r.0@, r.1@) == resolved(lookup),
{
    match lookup {
        None => (String::new(), String::new()),
        Some(l) => {
            let success = String::from_str("success");
            if l.status == success {
                match (&l.lat, &l.lon) {
                    (Some(lat), Some(lon)) => {
                        let mut place = part_or_dash(&l.city);
                        place.append(", ");
                        place.append(part_or_dash(&l.region_name).as_str());
                        place.append(", ");
                        place.append(part_or_dash(&l.country).as_str());
                        let mut link = String::from_str("https://www.google.com/maps?q=");
                        link.append(lat.as_str());
                        link.append(",");
                        link.append(lon.as_str());
                        (place, link)
                    },
                    _ => (String::new(), String::new()),
                }
            } else {
                (String::new(), String::new())
            }
        },
    }
}

} // verus!
