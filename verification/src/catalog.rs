use vstd::prelude::*;

verus! {

/// One downloadable sample dataset offered by the built-in library.
pub struct LibraryEntry {
    pub name: &'static str,
    pub url: &'static str,
    pub crs: u16,
}

/// The built-in dataset catalog, in menu order.  Every entry uses
/// the EPSG:4326 coordinate reference system.
pub fn entries() -> (es: Vec<LibraryEntry>)
    ensures
        es@.len() == 9,
        forall|i: int| 0 <= i < es@.len() ==> (#[trigger] es@[i]).crs == 4326,
        es@[0].name@ == "USA States"@,
        es@[1].name@ == "Tectonic Plate Boundaries"@,
        es@[2].name@ == "Countries"@,
        es@[3].name@ == "Amtrak Stations"@,
        es@[4].name@ == "Amtrak Tracks"@,
        es@[5].name@ == "World lakes"@,
        es@[6].name@ == "Russia"@,
        es@[7].name@ == "Washington DC street centerlines"@,
        es@[8].name@ == "NYC Street Centerline (CSCL)"@,
        es@[0].url@ == "https://raw.githubusercontent.com/PublicaMundi/MappingAPI/master/data/geojson/us-states.json"@,
        es@[1].url@ == "https://raw.githubusercontent.com/andrea-ballatore/open-geo-data-education/main/datasets/tectonic_plates_2002/PB2002_boundaries.geojson"@,
        es@[2].url@ == "https://raw.githubusercontent.com/andrea-ballatore/open-geo-data-education/main/datasets/world_country_boundaries_2018/natural_earth_world_boundaries_50m_2018.geojson"@,
        es@[3].url@ == "https://raw.githubusercontent.com/datanews/amtrak-geojson/master/amtrak-stations.geojson"@,
        es@[4].url@ == "https://raw.githubusercontent.com/datanews/amtrak-geojson/master/amtrak-track.geojson"@,
        es@[5].url@ == "https://raw.githubusercontent.com/simonepri/geo-maps/master/previews/earth-lakes.geo.json"@,
        es@[6].url@ == "https://raw.githubusercontent.com/hugoledoux/BIGpolygons/master/russia.geojson"@,
        es@[7].url@ == "https://raw.githubusercontent.com/benbalter/dc-maps/master/maps/street-centerlines.geojson"@,
        es@[8].url@ == "https://storage.googleapis.com/rgis-library/NYC%20Street%20Centerline%20(CSCL).geojson"@,
{
    let mut es: Vec<LibraryEntry> = Vec::new();
    es.push(
        LibraryEntry {
            name: "USA States",
            url: "https://raw.githubusercontent.com/PublicaMundi/MappingAPI/master/data/geojson/us-states.json",
            crs: 4326,
        },
    );
    es.push(
        LibraryEntry {
            name: "Tectonic Plate Boundaries",
            url: "https://raw.githubusercontent.com/andrea-ballatore/open-geo-data-education/main/datasets/tectonic_plates_2002/PB2002_boundaries.geojson",
            crs: 4326,
        },
    );
    es.push(
        LibraryEntry {
            name: "Countries",
            url: "https://raw.githubusercontent.com/andrea-ballatore/open-geo-data-education/main/datasets/world_country_boundaries_2018/natural_earth_world_boundaries_50m_2018.geojson",
            crs: 4326,
        },
    );
    es.push(
        LibraryEntry {
            name: "Amtrak Stations",
            url: "https://raw.githubusercontent.com/datanews/amtrak-geojson/master/amtrak-stations.geojson",
            crs: 4326,
        },
    );
    es.push(
        LibraryEntry {
            name: "Amtrak Tracks",
            url: "https://raw.githubusercontent.com/datanews/amtrak-geojson/master/amtrak-track.geojson",
            crs: 4326,
        },
    );
    es.push(
        LibraryEntry {
            name: "World lakes",
            url: "https://raw.githubusercontent.com/simonepri/geo-maps/master/previews/earth-lakes.geo.json",
            crs: 4326,
        },
    );
    es.push(
        LibraryEntry {
            name: "Russia",
            url: "https://raw.githubusercontent.com/hugoledoux/BIGpolygons/master/russia.geojson",
            crs: 4326,
        },
    );
    es.push(
        LibraryEntry {
            name: "Washington DC street centerlines",
            url: "https://raw.githubusercontent.com/benbalter/dc-maps/master/maps/street-centerlines.geojson",
            crs: 4326,
        },
    );
    es.push(
        LibraryEntry {
            name: "NYC Street Centerline (CSCL)",
            url: "https://storage.googleapis.com/rgis-library/NYC%20Street%20Centerline%20(CSCL).geojson",
            crs: 4326,
        },
    );
    es
}

} // verus!
