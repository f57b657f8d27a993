use audio_visualizer::bands::{edge_position, Band, BandLayout, EdgePosition};

fn log_edges() -> Vec<u64> {
    let mut edges = Vec::new();
    for k in 0..=64usize {
        let p = edge_position(k).unwrap();
        let lo = p.lo as f64;
        let hi = p.hi as f64;
        edges.push((lo * (hi / lo).powf(p.step as f64 / p.count as f64)).round() as u64);
    }
    edges
}

#[test]
fn edge_positions_cover_three_regions() {
    assert_eq!(edge_position(0), Some(EdgePosition { lo: 20_000, hi: 500_000, step: 0, count: 10 }));
    assert_eq!(edge_position(10), Some(EdgePosition { lo: 20_000, hi: 500_000, step: 10, count: 10 }));
    assert_eq!(edge_position(11), Some(EdgePosition { lo: 500_000, hi: 3_500_000, step: 1, count: 44 }));
    assert_eq!(edge_position(54), Some(EdgePosition { lo: 500_000, hi: 3_500_000, step: 44, count: 44 }));
    assert_eq!(edge_position(55), Some(EdgePosition { lo: 3_500_000, hi: 15_000_000, step: 1, count: 10 }));
    assert_eq!(edge_position(64), Some(EdgePosition { lo: 3_500_000, hi: 15_000_000, step: 10, count: 10 }));
    assert_eq!(edge_position(65), None);
}

#[test]
fn logarithmic_edges_match_the_regions() {
    let edges: Vec<u64> = vec![20000, 27595, 38073, 52531, 72478, 100000, 137973, 190365, 262653, 362390, 500000, 522609, 546240, 570940, 596756, 623740, 651945, 681424, 712236, 744442, 778104, 813288, 850063, 888501, 928677, 970670, 1014562, 1060438, 1108388, 1158507, 1210892, 1265646, 1322876, 1382693, 1445215, 1510565, 1578869, 1650262, 1724883, 1802878, 1884401, 1969609, 2058670, 2151759, 2249056, 2350753, 2457049, 2568151, 2684277, 2805654, 2932520, 3065122, 3203720, 3348585, 3500000, 4048278, 4682445, 5415955, 6264369, 7245688, 8380732, 9693582, 11212091, 12968476, 15000000];
    assert_eq!(log_edges(), edges);
}

#[test]
fn three_region_layout_has_exact_bands() {
    let layout = BandLayout::three_region(&log_edges()).unwrap();
    assert_eq!(layout.len(), 64);
    let expected: Vec<(usize, usize, u64)> = vec![(0, 1, 220000), (1, 2, 235000), (1, 2, 250000), (2, 3, 265000), (3, 4, 280000), (4, 6, 295000), (6, 8, 310000), (8, 12, 234000), (12, 16, 244800), (16, 23, 255600), (23, 24, 720000), (24, 25, 1009090), (25, 26, 1018181), (26, 27, 1027272), (27, 28, 1036363), (28, 30, 1045454), (30, 31, 1054545), (31, 33, 1063636), (33, 34, 1072727), (34, 36, 1081818), (36, 37, 1090909), (37, 39, 858000), (39, 41, 1513909), (41, 43, 1526318), (43, 45, 1538727), (45, 47, 1551136), (47, 49, 1563545), (49, 51, 1575954), (51, 53, 1588363), (53, 56, 1600772), (56, 58, 1613181), (58, 61, 1625590), (61, 64, 1638000), (64, 67, 1650409), (67, 70, 1662818), (70, 73, 1675227), (73, 76, 1687636), (76, 80, 1700045), (80, 83, 1859236), (83, 87, 1872709), (87, 91, 1886181), (91, 95, 1899654), (95, 99, 1913127), (99, 104, 1926600), (104, 109, 1940072), (109, 114, 1953545), (114, 119, 1967018), (119, 124, 1980490), (124, 130, 1993963), (130, 136, 2007436), (136, 142, 2020909), (142, 148, 2034381), (148, 155, 2047854), (155, 162, 2061327), (162, 188, 1872000), (188, 217, 2620000), (217, 251, 2840000), (251, 290, 3060000), (290, 336, 3280000), (336, 389, 3500000), (389, 450, 3720000), (450, 520, 3940000), (520, 602, 4160000), (602, 696, 4380000)];
    for i in 0..64 {
        let (start, end, tilt) = expected[i];
        assert_eq!(layout.band(i), Band { start, end, tilt });
    }
}

#[test]
fn three_region_layout_refuses_a_wrong_number_of_edges() {
    let mut edges = log_edges();
    edges.push(16_000_000);
    assert!(BandLayout::three_region(&edges).is_none());
    edges.truncate(64);
    assert!(BandLayout::three_region(&edges).is_none());
    assert!(BandLayout::three_region(&Vec::new()).is_none());
    edges.push(15_000_000);
    assert!(BandLayout::three_region(&edges).is_some());
}

#[test]
fn bands_are_never_empty_and_never_past_the_last_bin() {
    let zero = vec![0u64; 65];
    let layout = BandLayout::three_region(&zero).unwrap();
    for i in 0..64 {
        assert_eq!((layout.band(i).start, layout.band(i).end), (0, 1));
    }
    let high = vec![u64::MAX; 65];
    let layout = BandLayout::three_region(&high).unwrap();
    for i in 0..64 {
        assert_eq!((layout.band(i).start, layout.band(i).end), (1023, 1024));
    }
}

#[test]
fn uniform_layout_has_sixteen_bins_per_band() {
    let layout = BandLayout::uniform();
    for i in 0..64 {
        assert_eq!(layout.band(i).start, 16 * i);
        assert_eq!(layout.band(i).end, 16 * i + 16);
    }
    let tilts: Vec<u64> = vec![220000, 169200, 195000, 206700, 218400, 230100, 241800, 253500, 265200, 276900, 780000, 787090, 1018181, 1027272, 1036363, 1045454, 1054545, 1063636, 1072727, 1081818, 1090909, 1100000, 1940909, 1956818, 1972727, 1988636, 2004545, 2020454, 2036363, 2052272, 2068181, 2084090, 2100000, 2115909, 2131818, 2147727, 2163636, 2179545, 2383636, 2400909, 2418181, 2435454, 2452727, 2470000, 2487272, 2504545, 2521818, 2539090, 2556363, 2573636, 2590909, 2608181, 2625454, 2642727, 2400000, 2620000, 2840000, 3060000, 3280000, 3500000, 3720000, 3940000, 4160000, 4380000];
    for i in 0..64 {
        assert_eq!(layout.band(i).tilt, tilts[i]);
    }
}
