use valdisere_presentation::histogram::{cgi_histogram, histogram_peak, impression_histogram};
use valdisere_presentation::number::{is_float_chars, is_number_chars, is_special_chars};
use valdisere_presentation::records::{
    parse_cgi_data, parse_cgi_row, parse_meq_data, parse_meq_row, CgiRecord, MeqRecord,
};

fn field(s: &str) -> Vec<char> {
    s.chars().collect()
}

fn scores(list: &[i32]) -> Vec<CgiRecord> {
    list.iter().map(|s| CgiRecord { score: *s }).collect()
}

#[test]
fn histogram_leaves_out_scores_out_of_range() {
    let h = cgi_histogram(&scores(&[1, 1, 2, 7, 8, 0]));
    assert_eq!(h, [0, 2, 1, 0, 0, 0, 0, 1]);
    assert_eq!(histogram_peak(&h), 2);
}

#[test]
fn histogram_of_a_table() {
    let text = "id,date,score\n1,d,1\n2,d,1\n3,d,2\n4,d,7\n5,d,8\n6,d,0\n7,d,\n8,d\n9,d,x\n";
    let h = impression_histogram(text);
    assert_eq!(h, [0, 2, 1, 0, 0, 0, 0, 1]);
    assert_eq!(histogram_peak(&h), 2);
}

#[test]
fn histogram_of_nothing_is_empty_with_peak_one() {
    let h = cgi_histogram(&Vec::new());
    assert_eq!(h, [0; 8]);
    assert_eq!(histogram_peak(&h), 1);
    assert_eq!(impression_histogram("id,date,score\n"), [0; 8]);
    assert_eq!(impression_histogram(""), [0; 8]);
}

#[test]
fn histogram_ignores_negative_and_large_scores() {
    let h = cgi_histogram(&scores(&[-1, i32::MIN, i32::MAX, 8, 3, 3, 3, 4]));
    assert_eq!(h, [0, 0, 0, 3, 1, 0, 0, 0]);
    assert_eq!(histogram_peak(&h), 3);
}

#[test]
fn peak_is_the_fullest_bucket_and_at_least_one() {
    assert_eq!(histogram_peak(&[0, 0, 0, 0, 0, 0, 0, 0]), 1);
    assert_eq!(histogram_peak(&[0, 1, 0, 0, 0, 0, 0, 0]), 1);
    assert_eq!(histogram_peak(&[0, 1, 5, 0, 9, 0, 0, 9]), 9);
    assert_eq!(histogram_peak(&[0, 0, 0, 0, 0, 0, 0, 4]), 4);
    assert_eq!(histogram_peak(&[6, 0, 0, 0, 0, 0, 0, 0]), 6);
}

#[test]
fn impression_rows() {
    assert_eq!(parse_cgi_row(&field("1,d,3")), Some(CgiRecord { score: 3 }));
    assert_eq!(parse_cgi_row(&field("1,d, 2 ,note")), Some(CgiRecord { score: 2 }));
    assert_eq!(parse_cgi_row(&field("1,d,9")), Some(CgiRecord { score: 9 }));
    assert_eq!(parse_cgi_row(&field("1,d,-4")), Some(CgiRecord { score: -4 }));
    assert_eq!(parse_cgi_row(&field("1,d")), None);
    assert_eq!(parse_cgi_row(&field("1,d,")), None);
    assert_eq!(parse_cgi_row(&field("1,d,2.0")), None);
}

#[test]
fn impression_table_skips_header_and_bad_rows() {
    let text = "3,3,3\n1,d,1\nbad\n2,d,x\n3,d,5\r\n";
    assert_eq!(parse_cgi_data(text), scores(&[1, 5]));
    assert_eq!(parse_cgi_data("id,date,score"), vec![]);
}

fn doses(records: &[MeqRecord]) -> Vec<(f32, f32)> {
    records
        .iter()
        .map(|r| {
            let pre: String = r.pre.iter().collect();
            let post: String = r.post.iter().collect();
            (pre.parse::<f32>().unwrap(), post.parse::<f32>().unwrap())
        })
        .collect()
}

fn reference_doses(content: &str) -> Vec<(f32, f32)> {
    content
        .lines()
        .skip(1)
        .filter_map(|line| {
            let cols: Vec<&str> = line.split(',').collect();
            if cols.len() < 4 {
                return None;
            }
            let pre = cols[2].trim().parse::<f32>().ok()?;
            let post = cols[3].trim().parse::<f32>().ok()?;
            Some((pre, post))
        })
        .collect()
}

#[test]
fn float_grammar_agrees_with_std_on_samples() {
    let samples = [
        "", "0", "1", "10.0", "5.", ".5", ".", "+", "-", "+.5", "-5.", "+.", "1.2.3", "1..2", "..1",
        "3.14", "-3.14", "2.5E10", "2.5e-10", "2.5e+10", "2.5e", "2.5e+", "2.5e-", "e5", ".e5",
        "1e5", "1E5", "1e5.0", "1e5e5", "1.e5", ".5e-3", "1e999999999999999999999", "1e-999999999",
        "0000000000000000000000000000000000000000.000000000000000000000000000000000001",
        "340282350000000000000000000000000000000000000000000", "inf", "INF", "Inf", "+inf", "-inf",
        "infinity", "Infinity", "-INFINITY", "+InFiNiTy", "infinit", "infinityy", "in", "nan", "NaN",
        "NAN", "-nan", "+NaN", "nana", "na", "n", "i", " 1", "1 ", "1 2", "1,2", "1_000", "0x10",
        "1f32", "1.0f", "--1", "+-1", "-+1", "1-", "1+", "١", "1\u{660}", "İnf", "\u{212a}", "½",
        "1e٣", "+infe", "nan1", "1nan", "e", "E", "-e", "1e1e", "1.5.e3", "٫5",
    ];
    for s in samples {
        let expected = s.parse::<f32>().is_ok();
        assert_eq!(is_float_chars(&field(s)), expected, "{:?}", s);
        assert_eq!(s.parse::<f64>().is_ok(), expected, "{:?}", s);
    }
}

#[test]
fn float_grammar_agrees_with_std_on_all_short_texts() {
    let alphabet = ['+', '-', '.', 'e', 'E', '0', '7', 'i', 'n', 'f', 'a', 'N', '_', ' '];
    let mut texts: Vec<String> = vec![String::new()];
    let mut from = 0;
    for _ in 0..4 {
        let upto = texts.len();
        for k in from..upto {
            for c in alphabet {
                let mut t = texts[k].clone();
                t.push(c);
                texts.push(t);
            }
        }
        from = upto;
    }
    assert_eq!(texts.len(), 1 + 14 + 14 * 14 + 14 * 14 * 14 + 14 * 14 * 14 * 14);
    for t in &texts {
        assert_eq!(is_float_chars(&field(t)), t.parse::<f32>().is_ok(), "{:?}", t);
    }
}

#[test]
fn number_and_special_words() {
    assert!(is_number_chars(&field("12.5e-3")));
    assert!(is_number_chars(&field("7")));
    assert!(!is_number_chars(&field("-7")));
    assert!(!is_number_chars(&field("inf")));
    assert!(!is_number_chars(&field("")));
    assert!(is_special_chars(&field("inf")));
    assert!(is_special_chars(&field("iNfInItY")));
    assert!(is_special_chars(&field("NaN")));
    assert!(!is_special_chars(&field("-inf")));
    assert!(!is_special_chars(&field("")));
    assert!(!is_special_chars(&field("7")));
}

#[test]
fn dose_rows_need_four_columns_and_two_numbers() {
    assert_eq!(
        parse_meq_row(&field("1,a,10.0,5.0")),
        Some(MeqRecord { pre: field("10.0"), post: field("5.0") })
    );
    assert_eq!(
        parse_meq_row(&field("1,a, 20 ,\t1e1\r,x")),
        Some(MeqRecord { pre: field("20"), post: field("1e1") })
    );
    assert_eq!(parse_meq_row(&field("1,a,10.0")), None);
    assert_eq!(parse_meq_row(&field("1,a,10.0,")), None);
    assert_eq!(parse_meq_row(&field("1,a,,5.0")), None);
    assert_eq!(parse_meq_row(&field("1,a,ten,5.0")), None);
    assert_eq!(parse_meq_row(&field("1,a,10.0,5.0mg")), None);
    assert_eq!(parse_meq_row(&field("")), None);
}

#[test]
fn dose_table_skips_header_and_bad_rows() {
    let text = "id,name,pre,post\n1,a,10.0,5.0\nshort,row\n2,b,20.0,10.0\n3,c,n/a,1\n4,d,2,\n";
    assert_eq!(
        parse_meq_data(text),
        vec![
            MeqRecord { pre: field("10.0"), post: field("5.0") },
            MeqRecord { pre: field("20.0"), post: field("10.0") },
        ]
    );
    assert_eq!(doses(&parse_meq_data(text)), vec![(10.0, 5.0), (20.0, 10.0)]);
    assert_eq!(parse_meq_data("id,name,pre,post\n"), vec![]);
    assert_eq!(parse_meq_data("1,a,10.0,5.0"), vec![]);
    assert_eq!(parse_meq_data(""), vec![]);
}

#[test]
fn dose_table_agrees_with_float_parsing() {
    let tables = [
        "h\n1,a,10.0,5.0\n2,b,20.0,10.0\n",
        "h\r\n1,a, 1.5 ,2.\r\n2,b,.5,-0\r\n3,c,1e3,+7\r\n4,d,1e,7\r\n",
        "h\n1,a,1,2,3,4\n1,a,1\n,,,\n,,3,4\n,,x,4\n,,3,y\n,,0x1,4\n1,a,1_0,2\n",
        "h\n1,a,٣,4\n1,a,\u{a0}3\u{3000},\u{2003}4\n1,a,3\u{200b},4\n",
        "1,a,10.0,5.0",
        "",
        "h\n\n\n",
    ];
    for t in tables {
        assert_eq!(doses(&parse_meq_data(t)), reference_doses(t), "{:?}", t);
    }
}

fn dose_averages(doses: &[(f32, f32)]) -> (f32, f32) {
    let total_pre: f32 = doses.iter().map(|d| d.0).sum();
    let total_post: f32 = doses.iter().map(|d| d.1).sum();
    let count = doses.len() as f32;
    if count == 0.0 {
        return (0.0, 0.0);
    }
    (total_pre / count, total_post / count)
}

fn dose_reduction(avg_pre: f32, avg_post: f32) -> f32 {
    if avg_pre > 0.0 {
        ((avg_pre - avg_post) / avg_pre) * 100.0
    } else {
        0.0
    }
}

#[test]
fn two_dose_pairs_halve_the_dose() {
    let records = parse_meq_data("id,name,pre,post\n1,a,10.0,5.0\n2,b,20.0,10.0\n");
    assert_eq!(doses(&records), vec![(10.0, 5.0), (20.0, 10.0)]);
    let (avg_pre, avg_post) = dose_averages(&doses(&records));
    assert_eq!(avg_pre, 15.0);
    assert_eq!(avg_post, 7.5);
    assert_eq!(dose_reduction(avg_pre, avg_post), 50.0);
}

#[test]
fn empty_dose_table_has_no_records_to_average() {
    for table in ["", "id,name,pre,post", "id,name,pre,post\n", "h\n,,,\n1,a,,\nx\n"] {
        let records = parse_meq_data(table);
        assert_eq!(records, vec![]);
        let (avg_pre, avg_post) = dose_averages(&doses(&records));
        assert_eq!(avg_pre, 0.0);
        assert_eq!(avg_post, 0.0);
        assert_eq!(dose_reduction(avg_pre, avg_post), 0.0);
    }
}
