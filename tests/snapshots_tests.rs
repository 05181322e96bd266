use snapshots::{Layer, Snapshots};

struct NumLayer(u64);

impl Layer for NumLayer {
    type Extra = ();

    fn get_tick(&self) -> u64 {
        self.0
    }

    fn merge(self, other: Self) -> (Self, Self::Extra) {
        assert!(self.0 < other.0);
        (NumLayer(other.0), ())
    }
}

/// Keeps the newer tick and hands back the older one as the extra.
struct Tick(u64);

impl Layer for Tick {
    type Extra = u64;

    fn get_tick(&self) -> u64 {
        self.0
    }

    fn merge(self, other: Self) -> (Self, Self::Extra) {
        assert!(self.0 < other.0);
        (Tick(other.0), self.0)
    }
}

fn show_layers_with_iter<T: Layer>(snaps: &Snapshots<T>, f: impl Fn(&T) -> String) {
    let mut vals: Vec<String> = Vec::new();
    let mut it = snaps.iter();
    while let Some(v) = it.next() {
        vals.push(f(v));
    }
    let mut line = String::from("*");
    for v in vals.iter().rev() {
        line.push_str(&format!(" {}", v));
    }
    println!("{}", line);
}

fn ticks(snaps: &Snapshots<Tick>) -> Vec<u64> {
    let mut vals = Vec::new();
    let mut it = snaps.iter();
    while let Some(v) = it.next() {
        vals.push(v.0);
    }
    vals
}

fn filled(ratio: u64, n: u64) -> Snapshots<Tick> {
    let mut snaps = Snapshots::new(ratio).unwrap();
    for t in 1..=n {
        snaps.insert(Tick(t));
    }
    snaps
}

#[test]
fn it_works() {
    let mut snaps: Snapshots<NumLayer> = Snapshots::new(4).unwrap();
    let mk_next = |curr: &NumLayer| NumLayer(curr.0 + 1);
    for _ in 0..32 {
        let next = snaps.last().map(mk_next).unwrap_or_else(|| NumLayer(1));
        snaps.insert(next);
        show_layers_with_iter(&snaps, |v| format!("{}", v.0));
    }
}

#[test]
fn construction_rejects_zero_ratio() {
    assert!(Snapshots::<Tick>::new(0).is_none());
    assert!(Snapshots::<Tick>::new(1).is_some());
    assert!(Snapshots::<Tick>::new(u64::MAX).is_some());
}

#[test]
fn new_store_is_empty() {
    let snaps: Snapshots<Tick> = Snapshots::new(3).unwrap();
    assert!(snaps.last().is_none());
    assert_eq!(snaps.insertions(), 0);
    assert!(snaps.iter().next().is_none());
}

#[test]
fn first_insertion_makes_one_layer() {
    for ratio in [1u64, 2, 4, u64::MAX] {
        let mut snaps: Snapshots<Tick> = Snapshots::new(ratio).unwrap();
        assert_eq!(snaps.insert(Tick(7)), None);
        assert_eq!(snaps.last().map(|v| v.0), Some(7));
        assert_eq!(ticks(&snaps), vec![7]);
        assert_eq!(snaps.insertions(), 1);
    }
}

#[test]
fn ratio_one_carries_every_insertion() {
    let mut snaps: Snapshots<Tick> = Snapshots::new(1).unwrap();
    for t in 1..=6u64 {
        assert_eq!(snaps.insert(Tick(t)), None);
        assert_eq!(ticks(&snaps).len() as u64, t);
    }
    assert_eq!(ticks(&snaps), vec![6, 5, 4, 3, 2, 1]);
}

#[test]
fn huge_ratio_never_carries() {
    let mut snaps: Snapshots<Tick> = Snapshots::new(u64::MAX).unwrap();
    assert_eq!(snaps.insert(Tick(1)), None);
    for t in 2..=50u64 {
        assert_eq!(snaps.insert(Tick(t)), Some(t - 1));
        assert_eq!(ticks(&snaps), vec![t]);
    }
}

#[test]
fn extra_comes_from_the_merge_that_happened() {
    let mut snaps: Snapshots<Tick> = Snapshots::new(3).unwrap();
    let extras: Vec<Option<u64>> = (1..=13u64).map(|t| snaps.insert(Tick(t))).collect();
    assert_eq!(
        extras,
        vec![
            None,
            Some(1),
            Some(2),
            None,
            Some(4),
            Some(5),
            Some(3),
            Some(7),
            Some(8),
            Some(6),
            Some(10),
            Some(11),
            None
        ]
    );
    assert_eq!(ticks(&snaps), vec![13, 12, 9]);
}

#[test]
fn ratio_four_end_to_end() {
    let mut snaps: Snapshots<Tick> = Snapshots::new(4).unwrap();
    for t in 1..=4u64 {
        snaps.insert(Tick(t));
    }
    assert_eq!(ticks(&snaps), vec![4]);
    for t in 5..=8u64 {
        snaps.insert(Tick(t));
    }
    assert_eq!(ticks(&snaps), vec![8, 4]);
    assert_eq!(snaps.last().map(|v| v.0), Some(8));
}

#[test]
fn ratio_four_carries_after_four_contributions() {
    let mut snaps: Snapshots<Tick> = Snapshots::new(4).unwrap();
    let mut seen: Vec<(Vec<u64>, Option<u64>)> = Vec::new();
    for t in 1..=32u64 {
        let extra = snaps.insert(Tick(t));
        seen.push((ticks(&snaps), extra));
    }
    assert_eq!(seen[3], (vec![4], Some(3)));
    assert_eq!(seen[4], (vec![5, 4], None));
    assert_eq!(seen[7], (vec![8, 4], Some(7)));
    assert_eq!(seen[8], (vec![9, 8], Some(4)));
    assert_eq!(seen[16], (vec![17, 16], Some(12)));
    assert_eq!(seen[19], (vec![20, 16], Some(19)));
    assert_eq!(seen[20], (vec![21, 20, 16], None));
    assert_eq!(seen[31], (vec![32, 28, 16], Some(31)));
    // The second layer is born at insertion 5 = 1 + 4, the third at
    // insertion 21 = 1 + 4 + 16.
    for (i, (vals, _)) in seen.iter().enumerate() {
        let n = i as u64 + 1;
        let expected = if n < 5 { 1 } else if n < 21 { 2 } else { 3 };
        assert_eq!(vals.len(), expected);
    }
}

#[test]
fn iteration_is_repeatable() {
    let snaps = filled(3, 17);
    let first = ticks(&snaps);
    let second = ticks(&snaps);
    assert_eq!(first, second);
    assert_eq!(first, vec![17, 15, 9]);
}

#[test]
fn iterator_stays_done() {
    let snaps = filled(2, 3);
    let mut it = snaps.iter();
    assert_eq!(it.next().map(|v| v.0), Some(3));
    assert_eq!(it.next().map(|v| v.0), Some(2));
    assert!(it.next().is_none());
    assert!(it.next().is_none());
}

#[test]
fn layer_count_grows_logarithmically() {
    for ratio in [2u64, 3, 4, 7] {
        let mut snaps: Snapshots<Tick> = Snapshots::new(ratio).unwrap();
        for t in 1..=300u64 {
            snaps.insert(Tick(t));
            let mut log_ceil = 0u32;
            while ratio.pow(log_ceil) < t + 1 {
                log_ceil += 1;
            }
            assert!(ticks(&snaps).len() as u32 <= log_ceil + 1);
        }
        assert_eq!(snaps.insertions(), 300);
    }
}

#[test]
fn get_tick_reports_the_value_tick() {
    let snaps = filled(2, 5);
    assert_eq!(snaps.last().map(|v| v.get_tick()), Some(5));
}
