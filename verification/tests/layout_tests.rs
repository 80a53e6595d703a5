use pscols::layout::col_fixed_width;
use pscols::layout::column_name;
use pscols::layout::plan;
use pscols::layout::COL_COUNT;
use pscols::format_string;

#[test]
fn default_eighty_columns() {
    // A standard terminal with the default reserve: only the process
    // identifier column fits beside the expandable one, which keeps its
    // reserve of 74.
    assert_eq!(format_string(80, 74), "pid:5,args:74");
}

#[test]
fn default_eighty_columns_plan() {
    let p = plan(80, 74);
    assert_eq!(p.len(), 2);
    assert_eq!(p[0].col, 1);
    assert_eq!(p[0].width, 5);
    assert_eq!(column_name(p[0].col), "pid");
    assert_eq!(p[1].col, 0);
    assert_eq!(p[1].width, 74);
    assert_eq!(column_name(p[1].col), "args");
}

#[test]
fn detail_reserve_wide_terminal() {
    // The compact reserve of 44 on a 120-column terminal admits the whole
    // catalog; the expandable column keeps 44 plus the 6 leftover units.
    assert_eq!(
        format_string(120, 44),
        "pid:5,pgid:5,args:50,psr:3,stat:4,nice:3,%mem:4,cputime:8,start_time:5,tname:6,euser:8,egroup:8"
    );
}

#[test]
fn detail_differs_from_wide() {
    // The compact reserve keeps the expandable column near 44; the wide
    // reserve hands it nearly the whole line.
    let detail = plan(120, 44);
    let wide = plan(120, 114);
    let detail_args = detail.iter().find(|e| e.col == 0).unwrap().width;
    let wide_args = wide.iter().find(|e| e.col == 0).unwrap().width;
    assert_eq!(detail_args, 50);
    assert_eq!(wide_args, 114);
    assert_ne!(detail_args, wide_args);
    assert_eq!(format_string(120, 114), "pid:5,args:114");
}

#[test]
fn space_fully_allocated() {
    // Whenever the target width is at least the reserve, the resolved
    // widths plus one separator per column account for every unit.
    for &(total, reserve) in &[(80u32, 74u32), (79, 74), (120, 44), (200, 44), (74, 74), (0, 0)] {
        let p = plan(total, reserve);
        let sum: u64 = p.iter().map(|e| e.width as u64 + 1).sum();
        assert_eq!(sum, total as u64 + 1);
    }
}

#[test]
fn expandable_always_present() {
    // However small the terminal, the expandable column is in the plan.
    for &(total, reserve) in &[(0u32, 0u32), (1, 74), (3, 74), (80, 74), (5, 200)] {
        let p = plan(total, reserve);
        assert!(p.iter().any(|e| e.col == 0));
    }
}

#[test]
fn tiny_terminal_clamps() {
    // A terminal narrower than the reserve still yields a plan: only the
    // expandable column, which keeps its whole reserve.
    assert_eq!(format_string(3, 74), "args:74");
    assert_eq!(format_string(0, 0), "args:0");
}

#[test]
fn display_order_fixed() {
    // With everything selected, the emitted order is the fixed display
    // order, not the preference order that admitted the columns.
    let p = plan(200, 44);
    assert_eq!(p.len(), COL_COUNT);
    let names: Vec<&str> = p.iter().map(|e| column_name(e.col)).collect();
    assert_eq!(
        names,
        vec![
            "pid", "pgid", "args", "psr", "stat", "nice", "%mem", "cputime", "start_time",
            "tname", "euser", "egroup"
        ]
    );
}

#[test]
fn display_order_of_subset() {
    // A partial selection still comes out in display order.
    let p = plan(100, 44);
    let names: Vec<&str> = p.iter().map(|e| column_name(e.col)).collect();
    for w in names.windows(2) {
        let full = [
            "pid", "pgid", "args", "psr", "stat", "nice", "%mem", "cputime", "start_time",
            "tname", "euser", "egroup",
        ];
        let r0 = full.iter().position(|n| n == &w[0]).unwrap();
        let r1 = full.iter().position(|n| n == &w[1]).unwrap();
        assert!(r0 < r1);
    }
}

#[test]
fn selection_monotonic_to_ample_width() {
    // Once the width is ample enough to admit the whole catalog, every
    // column selected at a narrower width is still selected.
    for total in 0u32..160 {
        let narrow = plan(total, 44);
        let ample = plan(160, 44);
        for e in &narrow {
            assert!(ample.iter().any(|a| a.col == e.col));
        }
    }
}

#[test]
fn wider_terminal_can_drop_a_fixed_column() {
    // Greedy admission is not monotonic in general: at 79 columns the
    // pool after the expandable column is 5, too small for pid but ample
    // for stat; at 80 the pool is 6, pid takes it all and stat is out.
    assert_eq!(format_string(79, 74), "args:74,stat:4");
    assert_eq!(format_string(80, 74), "pid:5,args:74");
}

#[test]
fn catalog_widths() {
    let widths: Vec<u32> = (0..COL_COUNT).map(col_fixed_width).collect();
    assert_eq!(widths, vec![0, 5, 4, 3, 4, 8, 6, 5, 3, 8, 8, 5]);
}
