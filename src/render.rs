//! What the output sinks receive: the summary as named records, the frame
//! of the HTML page that draws them, and the order of the line-count
//! listing.
use vstd::prelude::*;

use crate::summary::SummaryRawData;
use vstd::string::StringSliceAdditionalSpecFns;

verus! {

/// One named statistic.
#[derive(Clone, Copy, Debug)]
pub struct Summary<'a> {
    pub statistics: &'a str,
    pub value: u64,
}

impl<'a> Summary<'a> {
    pub fn new(statistics: &'a str, value: u64) -> (r: Summary<'a>)
        ensures
            r.statistics@ == statistics@,
            r.value == value,
    {
        Summary { statistics, value }
    }
}

pub const NUMBER_OF_COMMITS: &'static str = "number-of-commits";

pub const NUMBER_OF_AUTHORS: &'static str = "number-of-authors";

pub const NUMBER_OF_ENTRIES: &'static str = "number-of-entries";

pub const NUMBER_OF_ENTRIES_CHANGED: &'static str = "number-of-entries-changed";

impl SummaryRawData {
    /// The four statistics, in the order they are reported.
    pub fn records(&self) -> (r: Vec<Summary<'static>>)
        ensures
            r@.len() == 4,
            r@[0].statistics@ == NUMBER_OF_COMMITS@ && r@[0].value == self.no_of_commits,
            r@[1].statistics@ == NUMBER_OF_AUTHORS@ && r@[1].value == self.no_of_authors,
            r@[2].statistics@ == NUMBER_OF_ENTRIES@ && r@[2].value == self.no_of_entries,
            r@[3].statistics@ == NUMBER_OF_ENTRIES_CHANGED@ && r@[3].value
                == self.no_of_entries_changed,
    {
        let mut r: Vec<Summary<'static>> = Vec::new();
        r.push(Summary::new(NUMBER_OF_COMMITS, self.no_of_commits));
        r.push(Summary::new(NUMBER_OF_AUTHORS, self.no_of_authors));
        r.push(Summary::new(NUMBER_OF_ENTRIES, self.no_of_entries));
        r.push(Summary::new(NUMBER_OF_ENTRIES_CHANGED, self.no_of_entries_changed));
        r
    }
}

/// The head of the HTML page, up to where the data goes.
pub const D3_HTML_PREFIX: &'static str = "
<!DOCTYPE html>
<div id=\"container\"></div>
<script src=\"https://cdn.jsdelivr.net/npm/d3@7\"></script>
<script type=\"module\">

const data =
";

/// The rest of the HTML page, after the data.
pub const D3_HTML_POSTFIX: &'static str = "
;

const width = 928;
  const height = width;
  const margin = 1; // to avoid clipping the root circle stroke
  const name = d => d.statistics.split('.').pop(); // 'Strings' of 'flare.util.Strings'
  const group = d => d.statistics.split('.')[1]; // 'util' of 'flare.util.Strings'
  const names = d => name(d).split(/(?=[A-Z][a-z])|\\s+/g); // ['Legend', 'Item'] of 'flare.vis.legend.LegendItems'

  // Specify the number format for values.
  const format = d3.format(',d');

  // Create a categorical color scale.
  const color = d3.scaleOrdinal(d3.schemeTableau10);

  // Create the pack layout.
  const pack = d3.pack()
      .size([width - margin * 2, height - margin * 2])
      .padding(3);

  // Compute the hierarchy from the (flat) data; expose the values
  // for each node; lastly apply the pack layout.
  const root = pack(d3.hierarchy({children: data})
      .sum(d => d.value));

  // Create the SVG container.
  const svg = d3.create('svg')
      .attr('width', width)
      .attr('height', height)
      .attr('viewBox', [-margin, -margin, width, height])
      .attr('style', 'max-width: 100%; height: auto; font: 10px sans-serif;')
      .attr('text-anchor', 'middle');

  // Place each (leaf) node according to the layout’s x and y values.
  const node = svg.append('g')
    .selectAll()
    .data(root.leaves())
    .join('g')
      .attr('transform', d => `translate(${d.x},${d.y})`);

  // Add a title.
  node.append('title')
      .text(d => `${d.data.statistics}\n${format(d.value)}`);

  // Add a filled circle.
  node.append('circle')
      .attr('fill-opacity', 0.7)
      .attr('fill', d => color(group(d.data)))
      .attr('r', d => d.r);

  // Add a label.
  const text = node.append('text')
      .attr('clip-path', d => `circle(${d.r})`);

  // Add a tspan for each CamelCase-separated word.
  text.selectAll()
    .data(d => names(d.data))
    .join('tspan')
      .attr('x', 0)
      .attr('y', (d, i, nodes) => `${i - nodes.length / 2 + 0.35}em`)
      .text(d => d);

  // Add a tspan for the node’s value.
  text.append('tspan')
      .attr('x', 0)
      .attr('y', d => `${names(d.data).length / 2 + 0.35}em`)
      .attr('fill-opacity', 0.7)
      .text(d => format(d.value));

// Append the SVG element.
container.append(svg.node());

</script>
";

fn push_all(out: &mut Vec<u8>, s: &[u8])
    ensures
        final(out)@ == old(out)@ + s@,
{
    let ghost start = out@;
    let mut i: usize = 0;
    while i < s.len()
        invariant
            i <= s@.len(),
            out@ == start + s@.subrange(0, i as int),
        decreases s@.len() - i,
    {
        out.push(s[i]);
        i = i + 1;
        assert(out@ =~= start + s@.subrange(0, i as int));
    }
    assert(s@.subrange(0, s@.len() as int) =~= s@);
}

/// The HTML page that draws the JSON document `json`.
pub fn d3_html_page(json: &Vec<u8>) -> (r: Vec<u8>)
    ensures
        r@ == D3_HTML_PREFIX.spec_bytes() + json@ + D3_HTML_POSTFIX.spec_bytes(),
{
    let mut r: Vec<u8> = Vec::new();
    push_all(&mut r, D3_HTML_PREFIX.as_bytes());
    push_all(&mut r, json.as_slice());
    push_all(&mut r, D3_HTML_POSTFIX.as_bytes());
    r
}

/// The positions `k` with `flags[k] == want`, in ascending order.
pub open spec fn positions_where(flags: Seq<bool>, want: bool) -> Seq<int>
    decreases flags.len(),
{
    if flags.len() == 0 {
        Seq::empty()
    } else {
        let prev = positions_where(flags.drop_last(), want);
        if flags.last() == want {
            prev.push(flags.len() - 1)
        } else {
            prev
        }
    }
}

/// The order in which the line-count listing shows its files: first those
/// whose flag is unset, then those whose flag is set, each group in its
/// original order.
pub fn listing_order(flags: &Vec<bool>) -> (r: Vec<usize>)
    ensures
        r@.map_values(|k: usize| k as int) == positions_where(flags@, false) + positions_where(
            flags@,
            true,
        ),
{
    let mut r: Vec<usize> = Vec::new();
    let mut pass: usize = 0;
    while pass < 2
        invariant
            pass <= 2,
            pass == 0 ==> r@.len() == 0,
            pass == 1 ==> r@.map_values(|k: usize| k as int) == positions_where(flags@, false),
            pass == 2 ==> r@.map_values(|k: usize| k as int) == positions_where(flags@, false)
                + positions_where(flags@, true),
        decreases 2 - pass,
    {
        let want = pass == 1;
        let ghost before = r@.map_values(|k: usize| k as int);
        let mut i: usize = 0;
        assert(flags@.take(0) =~= Seq::<bool>::empty());
        assert(before + positions_where(flags@.take(0), want) =~= before);
        while i < flags.len()
            invariant
                i <= flags@.len(),
                want == (pass == 1),
                r@.map_values(|k: usize| k as int) == before + positions_where(
                    flags@.take(i as int),
                    want,
                ),
            decreases flags@.len() - i,
        {
            let ghost prev = r@;
            proof {
                let t = flags@.take(i + 1);
                assert(t.drop_last() =~= flags@.take(i as int));
                assert(t.last() == flags@[i as int]);
                assert(t.len() - 1 == i);
            }
            if flags[i] == want {
                r.push(i);
                assert(r@ == prev.push(i));
                assert(r@.map_values(|k: usize| k as int) =~= prev.map_values(|k: usize| k as int).push(
                    i as int,
                ));
            }
            i = i + 1;
        }
        assert(flags@.take(flags@.len() as int) =~= flags@);
        pass = pass + 1;
    }
    r
}

} // verus!
