use path_tracer::tracer::{Bounce, Path, MAX_DEPTH};

#[test]
fn depth_limit_is_128() {
    assert_eq!(MAX_DEPTH, 128);
}

#[test]
fn a_fresh_path_is_tracing() {
    let p = Path::start();
    assert_eq!(p, Path::Tracing(0));
    assert!(p.is_tracing());
    assert_eq!(p.attenuations(), None);
}

#[test]
fn a_miss_lets_the_ray_escape() {
    assert_eq!(Path::start().step(Bounce::Miss), Path::Escaped(0));
    assert_eq!(Path::Tracing(5).step(Bounce::Miss), Path::Escaped(5));
    assert_eq!(Path::Escaped(5).attenuations(), Some(5));
    assert!(!Path::Escaped(5).is_tracing());
}

#[test]
fn absorption_ends_the_path_in_black() {
    assert_eq!(Path::start().step(Bounce::Absorbed), Path::Absorbed);
    assert_eq!(Path::Absorbed.attenuations(), None);
    assert!(!Path::Absorbed.is_tracing());
}

#[test]
fn scattering_goes_one_deeper() {
    assert_eq!(Path::start().step(Bounce::Scattered), Path::Tracing(1));
    assert_eq!(Path::Tracing(126).step(Bounce::Scattered), Path::Tracing(127));
}

#[test]
fn the_128th_scattering_exhausts_the_path() {
    assert_eq!(Path::Tracing(127).step(Bounce::Scattered), Path::Exhausted);
    assert_eq!(Path::Tracing(127).step(Bounce::Miss), Path::Escaped(127));
    assert!(!Path::Exhausted.is_tracing());
    assert_eq!(Path::Exhausted.attenuations(), None);
}

#[test]
fn a_path_beyond_the_limit_is_cut_off_too() {
    assert_eq!(Path::Tracing(128).step(Bounce::Scattered), Path::Exhausted);
    assert_eq!(Path::Tracing(u32::MAX).step(Bounce::Scattered), Path::Exhausted);
}

#[test]
fn an_ended_path_stays_as_it_is() {
    for b in [Bounce::Miss, Bounce::Absorbed, Bounce::Scattered] {
        assert_eq!(Path::Escaped(3).step(b), Path::Escaped(3));
        assert_eq!(Path::Absorbed.step(b), Path::Absorbed);
        assert_eq!(Path::Exhausted.step(b), Path::Exhausted);
    }
}

#[test]
fn follow_runs_a_whole_path() {
    assert_eq!(Path::follow(&vec![]), Path::Tracing(0));
    assert_eq!(
        Path::follow(&vec![Bounce::Scattered, Bounce::Scattered, Bounce::Miss]),
        Path::Escaped(2)
    );
    assert_eq!(
        Path::follow(&vec![Bounce::Scattered, Bounce::Absorbed, Bounce::Miss]),
        Path::Absorbed
    );
    assert_eq!(Path::follow(&vec![Bounce::Scattered; 127]), Path::Tracing(127));
    assert_eq!(Path::follow(&vec![Bounce::Scattered; 128]), Path::Exhausted);
    assert_eq!(Path::follow(&vec![Bounce::Scattered; 500]), Path::Exhausted);
    let mut long = vec![Bounce::Scattered; 128];
    long.push(Bounce::Miss);
    assert_eq!(Path::follow(&long), Path::Exhausted);
    let mut just = vec![Bounce::Scattered; 127];
    just.push(Bounce::Miss);
    assert_eq!(Path::follow(&just), Path::Escaped(127));
}
